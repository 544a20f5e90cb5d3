//! The configuration: what the file says, and the defaults for what it does
//! not say.

use crate::agent::Upstream;
use crate::paths::{expand_home, expanded, expansion_is_final};
use crate::text::{concat2, opt, trim, trimmed};
use vstd::prelude::*;

verus! {

/// Seconds after which an upstream that does not answer is given up.
pub fn default_timeout() -> (r: u64)
    ensures
        r == 10,
{
    10
}

/// The size beyond which the log is set aside.
pub fn default_max_log() -> (r: u64)
    ensures
        r == 33554432,
{
    32 * 1024 * 1024
}

// ---------------------------------------------------------------------------
// The comment of the key
// ---------------------------------------------------------------------------

/// A text in lower case.
pub uninterp spec fn lowercase(s: Seq<char>) -> Seq<char>;

/// `str::to_lowercase`: the result depends on the text alone. What the lower
/// case of a text is, is left to the name `lowercase`.
#[verifier::external_body]
fn to_lowercase(s: &str) -> (r: String)
    ensures
        r@ == lowercase(s@),
{
    s.to_lowercase()
}

/// The comment of the key on the machine with this name.
pub open spec fn comment_text(host: Option<Seq<char>>) -> Seq<char> {
    (if host is Some && host->0.len() > 0 {
        host->0
    } else {
        "mac"@
    }) + "@keyward"@
}

/// The comment of the key on the machine with this name.
pub fn comment_for(host: Option<String>) -> (r: String)
    ensures
        r@ == comment_text(opt(host)),
{
    let host = match host {
        Some(h) => if h.as_str().is_empty() {
            "mac".to_owned()
        } else {
            h
        },
        None => "mac".to_owned(),
    };
    concat2(host.as_str(), "@keyward")
}

/// The comment of the key, out of what the system says its name is.
pub fn default_enclave_comment(name: Option<&str>) -> (r: String)
    ensures
        r@ == comment_text(
            match name {
                Some(n) => Some(lowercase(trimmed(n@))),
                None => None,
            },
        ),
{
    match name {
        Some(n) => comment_for(Some(to_lowercase(trim(n).as_str()))),
        None => comment_for(None),
    }
}

// ---------------------------------------------------------------------------
// The file
// ---------------------------------------------------------------------------

/// The file that the configuration is read from.
pub fn config_path(given: Option<String>, home: &str) -> (r: String)
    ensures
        r@ == (match given {
            Some(p) => p@,
            None => home@ + "/.config/keyward/config.json"@,
        }),
{
    match given {
        Some(p) => p,
        None => concat2(home, "/.config/keyward/config.json"),
    }
}

/// What the configuration file says. Every field is optional.
pub struct ConfigFile {
    pub listen: Option<String>,
    pub log: Option<String>,
    pub upstreams: Option<Vec<Upstream>>,
    pub timeout_secs: Option<u64>,
    pub max_log_bytes: Option<u64>,
    pub log_list_identities: Option<bool>,
    /// In nanoseconds.
    pub touch_id_reuse: Option<u128>,
    pub sheet_reason: Option<String>,
    pub enclave_key: Option<String>,
    pub enclave_comment: Option<String>,
}

/// The configuration.
pub struct Config {
    /// The socket that clients connect to.
    pub listen: String,
    /// The log file.
    pub log: String,
    /// The agents that requests are passed on to, in the order in which they
    /// are asked.
    pub upstreams: Vec<Upstream>,
    pub timeout_secs: u64,
    pub max_log_bytes: u64,
    pub log_list_identities: bool,
    /// In nanoseconds; 0 authenticates every signature.
    pub touch_id_reuse: u128,
    pub sheet_reason: String,
    /// Where the handle of our own key lives.
    pub enclave_key: Option<String>,
    pub enclave_comment: String,
}

/// The socket that clients connect to by default.
pub open spec fn default_listen(home: Seq<char>) -> Seq<char> {
    home + "/.ssh/keyward.sock"@
}

/// The log file by default.
pub open spec fn default_log(home: Seq<char>) -> Seq<char> {
    home + "/Library/Application Support/Keyward/events.jsonl"@
}

/// The names and sockets of agents.
pub open spec fn upstreams_view(v: Seq<Upstream>) -> Seq<(Seq<char>, Seq<char>)> {
    v.map_values(|u: Upstream| (u.name@, u.path@))
}

/// The agents that are asked by default.
pub open spec fn default_upstreams(home: Seq<char>) -> Seq<(Seq<char>, Seq<char>)> {
    seq![
        (
            "Secretive"@,
            home
                + "/Library/Containers/com.maxgoedjen.Secretive.SecretAgent/Data/socket.ssh"@,
        ),
        ("gpg-agent"@, home + "/.gnupg/S.gpg-agent.ssh"@),
    ]
}

/// Agents with the home directory put into the paths of their sockets.
pub open spec fn expanded_upstreams(
    v: Seq<(Seq<char>, Seq<char>)>,
    home: Seq<char>,
) -> Seq<(Seq<char>, Seq<char>)> {
    v.map_values(|u: (Seq<char>, Seq<char>)| (u.0, expanded(u.1, home)))
}

/// A file that leaves every field out.
pub open spec fn blank() -> ConfigFile {
    ConfigFile {
        listen: None,
        log: None,
        upstreams: None,
        timeout_secs: None,
        max_log_bytes: None,
        log_list_identities: None,
        touch_id_reuse: None,
        sheet_reason: None,
        enclave_key: None,
        enclave_comment: None,
    }
}

/// `first` where there is one, else `second`.
pub open spec fn either<T>(first: Option<T>, second: T) -> T {
    match first {
        Some(t) => t,
        None => second,
    }
}

/// `c` is what the file `f` and the defaults come to.
pub open spec fn configures(c: Config, f: ConfigFile, home: Seq<char>, comment: Seq<char>) -> bool {
    &&& c.listen@ == expanded(either(opt(f.listen), default_listen(home)), home)
    &&& c.log@ == expanded(either(opt(f.log), default_log(home)), home)
    &&& upstreams_view(c.upstreams@) == expanded_upstreams(
        match f.upstreams {
            Some(u) => upstreams_view(u@),
            None => default_upstreams(home),
        },
        home,
    )
    &&& c.timeout_secs == either(f.timeout_secs, 10)
    &&& c.max_log_bytes == either(f.max_log_bytes, 33554432)
    &&& c.log_list_identities == either(f.log_list_identities, false)
    &&& c.touch_id_reuse == either(f.touch_id_reuse, 0)
    &&& c.sheet_reason@ == either(opt(f.sheet_reason), Seq::empty())
    &&& opt(c.enclave_key) == (match f.enclave_key {
        Some(k) => Some(expanded(k@, home)),
        None => None,
    })
    &&& c.enclave_comment@ == either(opt(f.enclave_comment), comment)
}

fn text_or(first: Option<String>, second: String) -> (r: String)
    ensures
        r@ == either(opt(first), second@),
{
    match first {
        Some(s) => s,
        None => second,
    }
}

/// The agents that are asked by default.
fn usual_upstreams(home: &str) -> (r: Vec<Upstream>)
    ensures
        upstreams_view(r@) == default_upstreams(home@),
{
    let mut r: Vec<Upstream> = Vec::new();
    r.push(
        Upstream {
            name: "Secretive".to_owned(),
            path: concat2(
                home,
                "/Library/Containers/com.maxgoedjen.Secretive.SecretAgent/Data/socket.ssh",
            ),
        },
    );
    r.push(
        Upstream {
            name: "gpg-agent".to_owned(),
            path: concat2(home, "/.gnupg/S.gpg-agent.ssh"),
        },
    );
    assert(upstreams_view(r@) =~= default_upstreams(home@));
    r
}

fn expand_upstreams(v: &Vec<Upstream>, home: &str) -> (r: Vec<Upstream>)
    ensures
        upstreams_view(r@) == expanded_upstreams(upstreams_view(v@), home@),
{
    let mut r: Vec<Upstream> = Vec::new();
    let mut i: usize = 0;
    let ghost all = expanded_upstreams(upstreams_view(v@), home@);
    assert(upstreams_view(r@) =~= all.take(0));
    while i < v.len()
        invariant
            0 <= i <= v@.len(),
            all == expanded_upstreams(upstreams_view(v@), home@),
            upstreams_view(r@) == all.take(i as int),
        decreases v@.len() - i,
    {
        let ghost before = r@;
        let u = Upstream {
            name: v[i].name.clone(),
            path: expand_home(v[i].path.as_str(), home),
        };
        r.push(u);
        proof {
            assert(upstreams_view(r@) =~= upstreams_view(before).push((u.name@, u.path@)));
            assert(upstreams_view(v@)[i as int] == (v@[i as int].name@, v@[i as int].path@));
            assert(all[i as int] == (u.name@, u.path@));
            assert(all.take(i + 1) =~= all.take(i as int).push(all[i as int]));
        }
        i = i + 1;
    }
    assert(all.take(v@.len() as int) =~= all);
    r
}

/// The configuration, out of what the file says, or out of the defaults alone
/// where there is no file that can be read.
pub fn load_config(file: Option<ConfigFile>, home: &str, comment: String) -> (c: Config)
    ensures
        configures(c, either(file, blank()), home@, comment@),
{
    let f = match file {
        Some(f) => f,
        None => ConfigFile {
            listen: None,
            log: None,
            upstreams: None,
            timeout_secs: None,
            max_log_bytes: None,
            log_list_identities: None,
            touch_id_reuse: None,
            sheet_reason: None,
            enclave_key: None,
            enclave_comment: None,
        },
    };
    let upstreams = match f.upstreams {
        Some(u) => u,
        None => usual_upstreams(home),
    };
    let listen = text_or(f.listen, concat2(home, "/.ssh/keyward.sock"));
    let log = text_or(
        f.log,
        concat2(home, "/Library/Application Support/Keyward/events.jsonl"),
    );
    Config {
        listen: expand_home(listen.as_str(), home),
        log: expand_home(log.as_str(), home),
        upstreams: expand_upstreams(&upstreams, home),
        timeout_secs: match f.timeout_secs {
            Some(n) => n,
            None => default_timeout(),
        },
        max_log_bytes: match f.max_log_bytes {
            Some(n) => n,
            None => default_max_log(),
        },
        log_list_identities: match f.log_list_identities {
            Some(b) => b,
            None => false,
        },
        touch_id_reuse: match f.touch_id_reuse {
            Some(n) => n,
            None => 0,
        },
        sheet_reason: text_or(f.sheet_reason, String::new()),
        enclave_key: match f.enclave_key {
            Some(k) => Some(expand_home(k.as_str(), home)),
            None => None,
        },
        enclave_comment: text_or(f.enclave_comment, comment),
    }
}

// ---------------------------------------------------------------------------
// Laws
// ---------------------------------------------------------------------------

/// No path in a configuration has a `~` left to expand, where the home directory
/// begins with a slash.
pub proof fn configured_paths_are_final(
    c: Config,
    f: ConfigFile,
    home: Seq<char>,
    comment: Seq<char>,
)
    requires
        configures(c, f, home, comment),
        home.len() > 0,
        home[0] == '/',
    ensures
        expanded(c.listen@, home) == c.listen@,
        expanded(c.log@, home) == c.log@,
        c.enclave_key is Some ==> expanded(c.enclave_key->0@, home) == c.enclave_key->0@,
        forall|i: int|
            0 <= i < c.upstreams@.len() ==> expanded((#[trigger] c.upstreams@[i]).path@, home)
                == c.upstreams@[i].path@,
{
    expansion_is_final(either(opt(f.listen), default_listen(home)), home);
    expansion_is_final(either(opt(f.log), default_log(home)), home);
    if f.enclave_key is Some {
        expansion_is_final(f.enclave_key->0@, home);
    }
    let said = match f.upstreams {
        Some(u) => upstreams_view(u@),
        None => default_upstreams(home),
    };
    assert(said.len() == expanded_upstreams(said, home).len());
    assert(said.len() == upstreams_view(c.upstreams@).len());
    assert forall|i: int| 0 <= i < c.upstreams@.len() implies expanded(
        (#[trigger] c.upstreams@[i]).path@,
        home,
    ) == c.upstreams@[i].path@ by {
        assert(upstreams_view(c.upstreams@)[i] == (c.upstreams@[i].name@, c.upstreams@[i].path@));
        assert(expanded_upstreams(said, home)[i] == (said[i].0, expanded(said[i].1, home)));
        expansion_is_final(said[i].1, home);
    }
}

/// What the file says is what is configured, with `~` expanded in paths.
pub proof fn file_decides(f: ConfigFile, home: &str, comment: String, c: Config)
    requires
        call_ensures(load_config, (Some(f), home, comment), c),
    ensures
        f.listen is Some ==> c.listen@ == expanded(f.listen->0@, home@),
        f.log is Some ==> c.log@ == expanded(f.log->0@, home@),
        f.upstreams is Some ==> {
            &&& c.upstreams@.len() == f.upstreams->0@.len()
            &&& forall|i: int|
                0 <= i < c.upstreams@.len() ==> {
                    &&& (#[trigger] c.upstreams@[i]).name@ == f.upstreams->0@[i].name@
                    &&& c.upstreams@[i].path@ == expanded(f.upstreams->0@[i].path@, home@)
                }
        },
        f.timeout_secs is Some ==> c.timeout_secs == f.timeout_secs->0,
        f.max_log_bytes is Some ==> c.max_log_bytes == f.max_log_bytes->0,
        f.log_list_identities is Some ==> c.log_list_identities == f.log_list_identities->0,
        f.touch_id_reuse is Some ==> c.touch_id_reuse == f.touch_id_reuse->0,
        f.sheet_reason is Some ==> c.sheet_reason@ == f.sheet_reason->0@,
        c.enclave_key is Some <==> f.enclave_key is Some,
        f.enclave_key is Some ==> c.enclave_key->0@ == expanded(f.enclave_key->0@, home@),
        f.enclave_comment is Some ==> c.enclave_comment@ == f.enclave_comment->0@,
{
    if f.upstreams is Some {
        let u = f.upstreams->0@;
        let v = c.upstreams@;
        assert(upstreams_view(v).len() == upstreams_view(u).len());
        assert forall|i: int| 0 <= i < v.len() implies {
            &&& (#[trigger] v[i]).name@ == u[i].name@
            &&& v[i].path@ == expanded(u[i].path@, home@)
        } by {
            assert(upstreams_view(v)[i] == (v[i].name@, v[i].path@));
            assert(expanded_upstreams(upstreams_view(u), home@)[i] == (
                u[i].name@,
                expanded(u[i].path@, home@),
            ));
        }
    }
}

/// What the file leaves out is as it is without a file: a socket, a log and two
/// agents below the home directory, ten seconds, 32 MiB, and all else switched off.
pub proof fn rest_is_default(f: ConfigFile, home: &str, comment: String, c: Config, d: Config)
    requires
        home@.len() > 0,
        home@[0] == '/',
        call_ensures(load_config, (Some(f), home, comment), c),
        call_ensures(load_config, (None, home, comment), d),
    ensures
        f.listen is None ==> c.listen@ == home@ + "/.ssh/keyward.sock"@,
        f.log is None ==> c.log@ == home@ + "/Library/Application Support/Keyward/events.jsonl"@,
        f.upstreams is None ==> two_agents(c, home@),
        f.timeout_secs is None ==> c.timeout_secs == 10,
        f.max_log_bytes is None ==> c.max_log_bytes == 33554432,
        f.log_list_identities is None ==> !c.log_list_identities,
        f.touch_id_reuse is None ==> c.touch_id_reuse == 0,
        f.sheet_reason is None ==> c.sheet_reason@.len() == 0,
        f.enclave_comment is None ==> c.enclave_comment@ == comment@,
        d.listen@ == home@ + "/.ssh/keyward.sock"@,
        d.log@ == home@ + "/Library/Application Support/Keyward/events.jsonl"@,
        two_agents(d, home@),
        d.timeout_secs == 10 && d.max_log_bytes == 33554432,
        !d.log_list_identities && d.touch_id_reuse == 0 && d.sheet_reason@.len() == 0,
        d.enclave_key is None,
        d.enclave_comment@ == comment@,
{
    expansion_is_final(home@ + "/.ssh/keyward.sock"@, home@);
    expansion_is_final(home@ + "/Library/Application Support/Keyward/events.jsonl"@, home@);
    if f.upstreams is None {
        lemma_two_agents(c, home@);
    }
    lemma_two_agents(d, home@);
}

/// The agents are Secretive and gpg-agent, in that order, at their sockets.
pub open spec fn two_agents(c: Config, home: Seq<char>) -> bool {
    &&& c.upstreams@.len() == 2
    &&& c.upstreams@[0].name@ == "Secretive"@
    &&& c.upstreams@[0].path@ == home
        + "/Library/Containers/com.maxgoedjen.Secretive.SecretAgent/Data/socket.ssh"@
    &&& c.upstreams@[1].name@ == "gpg-agent"@
    &&& c.upstreams@[1].path@ == home + "/.gnupg/S.gpg-agent.ssh"@
}

proof fn lemma_two_agents(c: Config, home: Seq<char>)
    requires
        home.len() > 0,
        home[0] == '/',
        upstreams_view(c.upstreams@) == expanded_upstreams(default_upstreams(home), home),
    ensures
        two_agents(c, home),
{
    let v = c.upstreams@;
    let a = home + "/Library/Containers/com.maxgoedjen.Secretive.SecretAgent/Data/socket.ssh"@;
    let b = home + "/.gnupg/S.gpg-agent.ssh"@;
    expansion_is_final(a, home);
    expansion_is_final(b, home);
    let e = expanded_upstreams(default_upstreams(home), home);
    assert(upstreams_view(v).len() == v.len() && e.len() == 2);
    assert(e[0] == ("Secretive"@, a));
    assert(e[1] == ("gpg-agent"@, b));
    assert(upstreams_view(v)[0] == (v[0].name@, v[0].path@));
    assert(upstreams_view(v)[1] == (v[1].name@, v[1].path@));
}

/// The comment of the key is the name of the machine, or `mac` where it has none,
/// before `@keyward`; of what the system says its name is, white space around it
/// and the case of its letters do not count.
pub proof fn comment_names_the_machine(
    host: Option<String>,
    r: String,
    name: &str,
    bare: String,
    spoken: String,
    silent: String,
)
    requires
        call_ensures(comment_for, (host,), r),
        call_ensures(trim, (name,), bare),
        call_ensures(default_enclave_comment, (Some(name),), spoken),
        call_ensures(default_enclave_comment, (None,), silent),
    ensures
        host is Some && host->0@.len() > 0 ==> r@ == host->0@ + "@keyward"@,
        host is None || host->0@.len() == 0 ==> r@ == "mac@keyward"@,
        silent@ == "mac@keyward"@,
        lowercase(bare@).len() > 0 ==> spoken@ == lowercase(bare@) + "@keyward"@,
        lowercase(bare@).len() == 0 ==> spoken@ == "mac@keyward"@,
{
    reveal_strlit("mac");
    reveal_strlit("@keyward");
    reveal_strlit("mac@keyward");
    assert("mac"@ + "@keyward"@ =~= "mac@keyward"@);
}

/// The configuration is read from the file that was named, and from one below the
/// home directory where none was.
pub proof fn file_is_where_it_was_named(given: Option<String>, home: &str, r: String)
    requires
        call_ensures(config_path, (given, home), r),
    ensures
        given is Some ==> r@ == given->0@,
        given is None ==> r@ == home@ + "/.config/keyward/config.json"@,
{
}

/// The limits that hold where nothing is configured.
pub proof fn usual_limits(t: u64, n: u64)
    requires
        call_ensures(default_timeout, (), t),
        call_ensures(default_max_log, (), n),
    ensures
        t == 10,
        n == 32 * 1024 * 1024,
{
}

} // verus!
