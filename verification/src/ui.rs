//! The card that the app shows while a signature is in flight.
//!
//! The system sheet cannot be restyled, so a card stands behind it with what
//! the sheet has no room for. The card is context, never a gate.

use crate::attrib::{env_value, Attribution, GitContext, ProcInfo};
use crate::paths::{abbreviated, short_home};
use crate::text::{
    concat2, concat3, contains, copied, each, ends_with, has, joined, opt, same, trim, trimmed,
};
use vstd::prelude::*;

verus! {

// ---------------------------------------------------------------------------
// Names of processes
// ---------------------------------------------------------------------------

/// The executable or one of the first two arguments holds `needle`.
pub open spec fn head_has(p: ProcInfo, needle: Seq<char>) -> bool {
    ||| p.path is Some && has(p.path->0@, needle)
    ||| p.args@.len() > 0 && has(p.args@[0]@, needle)
    ||| p.args@.len() > 1 && has(p.args@[1]@, needle)
}

/// The process runs the agent of that name: its executable is the agent's.
pub open spec fn runs_agent(p: ProcInfo, agent: Option<Seq<char>>) -> bool {
    agent is Some && p.path is Some && ("/"@ + agent->0).is_suffix_of(p.path->0@)
}

/// The process hosts the agent of that name: it is a `node` whose executable or
/// entry point is the agent's.
pub open spec fn hosts_agent(p: ProcInfo, agent: Option<Seq<char>>) -> bool {
    &&& agent is Some
    &&& opt(p.name) == Some("node"@)
    &&& head_has(p, "/"@ + agent->0) || head_has(p, agent->0 + "-code"@)
}

/// A name that a human recognises for a process.
pub open spec fn shown_name(p: ProcInfo, agent: Option<Seq<char>>) -> Option<Seq<char>> {
    match p.name {
        None => None,
        Some(name) => if runs_agent(p, agent) {
            agent
        } else if head_has(p, ".frizz/server-releases"@) || head_has(p, "frizz-server"@) {
            Some("frizz server"@)
        } else if hosts_agent(p, agent) {
            agent
        } else {
            Some(name@)
        },
    }
}

fn head_contains(p: &ProcInfo, needle: &str) -> (r: bool)
    ensures
        r == head_has(*p, needle@),
{
    let in_path = match &p.path {
        Some(path) => contains(path.as_str(), needle),
        None => false,
    };
    in_path || (p.args.len() > 0 && contains(p.args[0].as_str(), needle)) || (p.args.len() > 1
        && contains(p.args[1].as_str(), needle))
}

/// A name that a human recognises for a process, where `agent` is the program
/// name of the coding agent whose sessions are to be told from a plain `node`.
///
/// Only the executable and the entry point may decide what a process is: a
/// later argument may well name another program.
pub fn display_name(p: &ProcInfo, agent: Option<&str>) -> (r: Option<String>)
    ensures
        opt(r) == shown_name(*p, lent(agent)),
{
    let name = match &p.name {
        Some(n) => n.clone(),
        None => return None,
    };
    if let Some(agent) = agent {
        let runs = match &p.path {
            Some(path) => ends_with(path.as_str(), concat2("/", agent).as_str()),
            None => false,
        };
        if runs {
            return Some(agent.to_owned());
        }
    }
    if head_contains(p, ".frizz/server-releases") || head_contains(p, "frizz-server") {
        return Some("frizz server".to_owned());
    }
    if let Some(agent) = agent {
        if same(name.as_str(), "node") && (head_contains(p, concat2("/", agent).as_str())
            || head_contains(p, concat2(agent, "-code").as_str())) {
            return Some(agent.to_owned());
        }
    }
    Some(name)
}

/// The names of a process and its ancestors, the farthest first.
pub open spec fn chain_names(ancestry: Seq<ProcInfo>, agent: Option<Seq<char>>) -> Seq<Seq<char>>
    decreases ancestry.len(),
{
    if ancestry.len() == 0 {
        seq![]
    } else {
        let nearer = chain_names(ancestry.drop_last(), agent);
        match shown_name(ancestry.last(), agent) {
            Some(name) => seq![name] + nearer,
            None => nearer,
        }
    }
}

/// The names of a process and its ancestors, the farthest first; those without
/// a name are left out.
pub fn chain(ancestry: &Vec<ProcInfo>, agent: Option<&str>) -> (r: Vec<String>)
    ensures
        each(r@) == chain_names(ancestry@, lent(agent)),
{
    let mut r: Vec<String> = Vec::new();
    let mut i: usize = ancestry.len();
    assert(ancestry@.take(i as int) =~= ancestry@);
    assert(each(r@) + chain_names(ancestry@, lent(agent)) =~= chain_names(ancestry@, lent(agent)));
    while i > 0
        invariant
            0 <= i <= ancestry@.len(),
            each(r@) + chain_names(ancestry@.take(i as int), lent(agent)) == chain_names(ancestry@, lent(agent)),
        decreases i,
    {
        let ghost before = each(r@);
        let ghost left = ancestry@.take(i as int);
        assert(left.drop_last() =~= ancestry@.take(i - 1));
        assert(left.last() == ancestry@[i - 1]);
        if let Some(name) = display_name(&ancestry[i - 1], agent) {
            r.push(name);
            assert(each(r@) =~= before.push(name@));
            assert(before + (seq![name@] + chain_names(ancestry@.take(i - 1), lent(agent))) =~= each(r@)
                + chain_names(ancestry@.take(i - 1), lent(agent)));
        }
        i = i - 1;
    }
    assert(each(r@) + chain_names(ancestry@.take(0), lent(agent)) =~= each(r@));
    r
}

// ---------------------------------------------------------------------------
// The command
// ---------------------------------------------------------------------------

/// The commands that take the work from their standard input.
pub open spec fn stdin_commands() -> Seq<Seq<char>> {
    seq![
        "bash -s"@,
        "sh -s"@,
        "zsh -s"@,
        "bash"@,
        "sh"@,
        "zsh"@,
        "bash -"@,
        "sh -"@,
        "cat"@,
    ]
}

/// The command takes the work from its standard input.
pub open spec fn takes_stdin(cmd: Seq<char>) -> bool {
    stdin_commands().contains(trimmed(cmd))
}

/// Whether a command takes the work from its standard input, so that its name
/// says nothing about it.
pub fn reads_stdin(cmd: &str) -> (r: bool)
    ensures
        r == takes_stdin(cmd@),
{
    let t = trim(cmd);
    let t = t.as_str();
    let r = same(t, "bash -s") || same(t, "sh -s") || same(t, "zsh -s") || same(t, "bash") || same(
        t,
        "sh",
    ) || same(t, "zsh") || same(t, "bash -") || same(t, "sh -") || same(t, "cat");
    proof {
        let all = stdin_commands();
        if r {
            assert(all[0] == t@ || all[1] == t@ || all[2] == t@ || all[3] == t@ || all[4] == t@
                || all[5] == t@ || all[6] == t@ || all[7] == t@ || all[8] == t@);
        }
    }
    r
}

/// The command of a request, as it was given.
pub open spec fn command_text(who: Attribution) -> Option<Seq<char>> {
    match who.purpose.remote_command {
        Some(c) => Some(c@),
        None => match who.process {
            Some(p) => Some(joined(each(p.args@), " "@)),
            None => None,
        },
    }
}

/// The command of a request, as it was given: the one that runs on the host,
/// else the caller's own.
pub fn raw_command(who: &Attribution) -> (r: Option<String>)
    ensures
        opt(r) == command_text(*who),
{
    match &who.purpose.remote_command {
        Some(c) => Some(c.clone()),
        None => match &who.process {
            Some(p) => Some(p.commandline()),
            None => None,
        },
    }
}

/// The process whose standard input holds the work, where the command does not
/// say what it is.
pub fn script_owner(who: &Attribution) -> (r: Option<i32>)
    ensures
        r == (if command_text(*who) is Some && takes_stdin(command_text(*who)->0)
            && who.process is Some {
            Some(who.process->0.pid)
        } else {
            None
        }),
{
    match raw_command(who) {
        Some(c) => if reads_stdin(c.as_str()) {
            match &who.process {
                Some(p) => Some(p.pid),
                None => None,
            }
        } else {
            None
        },
        None => None,
    }
}

/// The longest script that is shown, in bytes.
pub const SCRIPT_MAX: u64 = 0x1_0000;

/// Whether standard input is something that a script can be read from: a file
/// that is neither empty nor too long.
pub fn script_readable(is_file: bool, len: u64) -> (r: bool)
    ensures
        r <==> is_file && 0 < len <= SCRIPT_MAX,
{
    is_file && len > 0 && len <= SCRIPT_MAX
}

/// The script in the text that was read, if there is one.
pub fn stdin_script(text: &str) -> (r: Option<String>)
    ensures
        opt(r) == (if trimmed(text@).len() > 0 {
            Some(trimmed(text@))
        } else {
            None
        }),
{
    let t = trim(text);
    if t.as_str().is_empty() {
        None
    } else {
        Some(t)
    }
}

/// What the card shows as the command, and whether it is a script from standard
/// input.
pub open spec fn shown_command(
    command: Option<Seq<char>>,
    script: Option<Seq<char>>,
) -> (Option<Seq<char>>, bool) {
    match command {
        Some(c) => if takes_stdin(c) {
            match script {
                Some(s) => (Some(s), true),
                None => (
                    Some(c + "   (script piped on stdin \u{2014} not readable)"@),
                    false,
                ),
            }
        } else {
            (Some(c), false)
        },
        None => (None, false),
    }
}

/// What the card shows as the command, and whether it is a script from standard
/// input. What was piped leaves nothing to read, and the card says so.
pub fn card_command(command: Option<String>, script: Option<String>) -> (r: (
    Option<String>,
    bool,
))
    ensures
        (opt(r.0), r.1) == shown_command(opt(command), opt(script)),
{
    match command {
        Some(c) => if reads_stdin(c.as_str()) {
            match script {
                Some(s) => (Some(s), true),
                None => (
                    Some(concat2(c.as_str(), "   (script piped on stdin \u{2014} not readable)")),
                    false,
                ),
            }
        } else {
            (Some(c), false)
        },
        None => (None, false),
    }
}

// ---------------------------------------------------------------------------
// The card
// ---------------------------------------------------------------------------

/// What the card shows.
pub struct Show {
    pub headline: String,
    pub app: Option<String>,
    pub app_bundle: Option<String>,
    pub process: Option<String>,
    pub key: Option<String>,
    pub fingerprint: Option<String>,
    pub host: Option<String>,
    pub repo: Option<String>,
    pub branch: Option<String>,
    pub subject: Option<String>,
    /// The actual command or operation: the card has room for it, the sheet
    /// does not.
    pub command: Option<String>,
    /// The command is a script from standard input.
    pub script: bool,
    pub chain: Vec<String>,
    /// The session, by its title where it has one.
    pub session: Option<String>,
    /// The directory of the work, with the home directory as `~`.
    pub directory: Option<String>,
    /// The remote of a push, such as `origin = git@github.com:owner/repo.git`.
    pub remote: Option<String>,
    /// For a push: the commits about to leave, newest first.
    pub commits: Vec<String>,
    pub commit_count: Option<u32>,
    pub stat: Option<String>,
    /// For a push: the ref that the commits were counted from; none for a new
    /// branch.
    pub upstream: Option<String>,
}

/// The remote of a push in words.
pub open spec fn remote_text(g: GitContext) -> Option<Seq<char>> {
    match g.push_remote {
        Some(n) => match g.push_remote_url {
            Some(url) => Some(n@ + " = "@ + url@),
            None => Some(n@),
        },
        None => None,
    }
}

/// The directory of the work.
pub open spec fn directory_text(who: Attribution, home: Option<Seq<char>>) -> Option<Seq<char>> {
    match crate::agent::approval::scope_view(who).directory {
        Some(d) => Some(abbreviated(d, home)),
        None => None,
    }
}

/// The session in words.
pub open spec fn session_text(who: Attribution) -> Option<Seq<char>> {
    match who.context.session_title {
        Some(t) => Some(t@),
        None => env_value(who.context.env@, "CLAUDE_CODE_HOST_SESSION_ID"@),
    }
}

/// An optional text that was lent.
pub open spec fn lent(o: Option<&str>) -> Option<Seq<char>> {
    match o {
        Some(s) => Some(s@),
        None => None,
    }
}

fn owned(o: Option<&str>) -> (r: Option<String>)
    ensures
        opt(r) == lent(o),
{
    match o {
        Some(s) => Some(s.to_owned()),
        None => None,
    }
}

/// The card shows what the repository says about the work.
pub open spec fn shows_git(card: Show, git: Option<GitContext>) -> bool {
    match git {
        Some(g) => {
            &&& card.branch == g.branch
            &&& card.subject == g.subject
            &&& opt(card.remote) == remote_text(g)
            &&& each(card.commits@) == each(g.commits@)
            &&& card.commit_count == g.commit_count
            &&& card.stat == g.stat
            &&& card.upstream == g.upstream
        },
        None => {
            &&& card.branch is None
            &&& card.subject is None
            &&& card.remote is None
            &&& card.commits@.len() == 0
            &&& card.commit_count is None
            &&& card.stat is None
            &&& card.upstream is None
        },
    }
}

/// The card for a request, with the script that its standard input holds, where
/// that could be read.
pub fn show(
    who: &Attribution,
    headline: &str,
    key: Option<&str>,
    fp: Option<&str>,
    script: Option<String>,
    home: Option<&str>,
    agent: Option<&str>,
) -> (card: Show)
    ensures
        card.headline@ == headline@,
        match who.app {
            Some(a) => opt(card.app) == Some(a.name@) && opt(card.app_bundle) == Some(
                a.bundle_path@,
            ),
            None => card.app is None && card.app_bundle is None,
        },
        card.process == (match who.process {
            Some(p) => p.name,
            None => None,
        }),
        opt(card.key) == lent(key),
        opt(card.fingerprint) == lent(fp),
        card.host == who.purpose.host,
        card.repo == who.purpose.repo,
        (opt(card.command), card.script) == shown_command(command_text(*who), opt(script)),
        each(card.chain@) == chain_names(who.ancestry@, lent(agent)),
        opt(card.session) == session_text(*who),
        opt(card.directory) == directory_text(*who, lent(home)),
        shows_git(card, who.context.git),
{
    let (command, is_script) = card_command(raw_command(who), script);
    let directory = match crate::agent::approval::scope_of(who).directory {
        Some(d) => Some(short_home(d.as_str(), home)),
        None => None,
    };
    let session = match &who.context.session_title {
        Some(t) => Some(t.clone()),
        None => who.context.env_var("CLAUDE_CODE_HOST_SESSION_ID"),
    };
    let (app, app_bundle) = match &who.app {
        Some(a) => (Some(a.name.clone()), Some(a.bundle_path.clone())),
        None => (None, None),
    };
    let process = match &who.process {
        Some(p) => copied(&p.name),
        None => None,
    };
    let mut card = Show {
        headline: headline.to_owned(),
        app,
        app_bundle,
        process,
        key: owned(key),
        fingerprint: owned(fp),
        host: copied(&who.purpose.host),
        repo: copied(&who.purpose.repo),
        branch: None,
        subject: None,
        command,
        script: is_script,
        chain: chain(&who.ancestry, agent),
        session,
        directory,
        remote: None,
        commits: Vec::new(),
        commit_count: None,
        stat: None,
        upstream: None,
    };
    if let Some(g) = &who.context.git {
        card.branch = copied(&g.branch);
        card.subject = copied(&g.subject);
        card.remote = match &g.push_remote {
            Some(n) => match &g.push_remote_url {
                Some(url) => Some(concat3(n.as_str(), " = ", url.as_str())),
                None => Some(n.clone()),
            },
            None => None,
        };
        card.commits = g.commits.clone();
        assert(each(card.commits@) =~= each(g.commits@));
        card.commit_count = g.commit_count;
        card.stat = copied(&g.stat);
        card.upstream = copied(&g.upstream);
    }
    card
}

// ---------------------------------------------------------------------------
// Laws
// ---------------------------------------------------------------------------

/// What a process is called does not depend on its arguments behind the entry
/// point.
pub proof fn later_arguments_do_not_name(p: ProcInfo, q: ProcInfo, agent: Option<Seq<char>>)
    requires
        p.name == q.name,
        p.path == q.path,
        p.args@.len() == q.args@.len() || (p.args@.len() >= 2 && q.args@.len() >= 2),
        forall|i: int| 0 <= i < 2 && i < p.args@.len() ==> #[trigger] p.args@[i] == q.args@[i],
    ensures
        shown_name(p, agent) == shown_name(q, agent),
{
    if p.args@.len() > 0 {
        assert(p.args@[0] == q.args@[0]);
    }
    if p.args@.len() > 1 {
        assert(p.args@[1] == q.args@[1]);
    }
}

/// A process is shown under a name just where it has one.
pub proof fn named_is_shown(p: ProcInfo, agent: Option<Seq<char>>)
    ensures
        shown_name(p, agent) is Some <==> p.name is Some,
{
}

/// A process that runs the agent, by its executable, is called by the agent's
/// name; else one whose executable or entry point is the server's is the server;
/// else a `node` whose executable or entry point is the agent's is called by the
/// agent's name; and any other keeps its own.
pub proof fn name_follows_executable(
    p: &ProcInfo,
    agent: &str,
    r: Option<String>,
    plain: Option<String>,
)
    requires
        p.name is Some,
        call_ensures(display_name, (p, Some(agent)), r),
        call_ensures(display_name, (p, None), plain),
    ensures
        r is Some,
        plain is Some,
        ({
            let by_path = p.path is Some && (seq!['/'] + agent@).is_suffix_of(p.path->0@);
            let server = entry_holds(*p, ".frizz/server-releases"@) || entry_holds(
                *p,
                "frizz-server"@,
            );
            let hosted = p.name->0@ == "node"@ && (entry_holds(*p, seq!['/'] + agent@)
                || entry_holds(*p, agent@ + "-code"@));
            &&& by_path ==> r->0@ == agent@
            &&& !by_path && server ==> r->0@ == "frizz server"@
            &&& !by_path && !server && hosted ==> r->0@ == agent@
            &&& !by_path && !server && !hosted ==> r->0@ == p.name->0@
            &&& server ==> plain->0@ == "frizz server"@
            &&& !server ==> plain->0@ == p.name->0@
        }),
{
    reveal_strlit("/");
    assert("/"@ =~= seq!['/']);
}

/// The executable, the first or the second argument of a process holds a text.
pub open spec fn entry_holds(p: ProcInfo, text: Seq<char>) -> bool {
    ||| p.path is Some && has(p.path->0@, text)
    ||| exists|i: int| 0 <= i < 2 && i < p.args@.len() && has((#[trigger] p.args@[i])@, text)
}

/// A process without a name is not called by any.
pub proof fn nameless_stays_nameless(p: &ProcInfo, agent: Option<&str>, r: Option<String>)
    requires
        p.name is None,
        call_ensures(display_name, (p, agent), r),
    ensures
        r is None,
{
}

/// One more ancestor is named before all others, and one without a name not at
/// all; of no ancestors there are no names.
pub proof fn chain_grows_in_front(
    few: &Vec<ProcInfo>,
    more: &Vec<ProcInfo>,
    agent: Option<&str>,
    a: Vec<String>,
    b: Vec<String>,
    name: Option<String>,
)
    requires
        more@.len() > 0,
        few@ == more@.drop_last(),
        call_ensures(chain, (few, agent), a),
        call_ensures(chain, (more, agent), b),
        call_ensures(display_name, (&more@.last(), agent), name),
    ensures
        few@.len() == 0 ==> a@.len() == 0,
        name is None ==> each(b@) == each(a@),
        name is Some ==> each(b@) == seq![name->0@] + each(a@),
{
    if few@.len() == 0 {
        assert(each(a@).len() == a@.len());
    }
}

/// A command takes its work from standard input just where it is, but for white
/// space around it, a shell or `cat` that is given nothing else to run.
pub proof fn stdin_is_read_by_shells(cmd: &str, r: bool, bare: String)
    requires
        call_ensures(reads_stdin, (cmd,), r),
        call_ensures(trim, (cmd,), bare),
    ensures
        r <==> bare@ == "bash -s"@ || bare@ == "sh -s"@ || bare@ == "zsh -s"@ || bare@ == "bash"@
            || bare@ == "sh"@ || bare@ == "zsh"@ || bare@ == "bash -"@ || bare@ == "sh -"@ || bare@
            == "cat"@,
{
    let all = stdin_commands();
    assert(all[0] == "bash -s"@ && all[1] == "sh -s"@ && all[2] == "zsh -s"@ && all[3] == "bash"@
        && all[4] == "sh"@ && all[5] == "zsh"@ && all[6] == "bash -"@ && all[7] == "sh -"@ && all[8]
        == "cat"@);
}

/// The command is the one that runs on the host, else that of the process; and the
/// process is looked at for a script just where that command reads its standard
/// input.
pub proof fn command_and_its_script(
    who: &Attribution,
    r: Option<String>,
    line: String,
    text: &str,
    reads: bool,
    owner: Option<i32>,
)
    requires
        call_ensures(raw_command, (who,), r),
        who.process is Some ==> call_ensures(ProcInfo::commandline, (&who.process->0,), line),
        r is Some ==> text@ == r->0@,
        call_ensures(reads_stdin, (text,), reads),
        call_ensures(script_owner, (who,), owner),
    ensures
        r is Some <==> who.purpose.remote_command is Some || who.process is Some,
        who.purpose.remote_command is Some ==> r->0@ == who.purpose.remote_command->0@,
        who.purpose.remote_command is None && who.process is Some ==> r->0@ == line@,
        owner is Some <==> r is Some && reads && who.process is Some,
        owner is Some ==> owner->0 == who.process->0.pid,
{
}

/// A script is read from a file that is not empty and has at most 64 KiB, and
/// shown without the white space around it, where anything is left.
pub proof fn script_is_read(
    is_file: bool,
    len: u64,
    readable: bool,
    text: &str,
    r: Option<String>,
    bare: String,
)
    requires
        call_ensures(script_readable, (is_file, len), readable),
        call_ensures(stdin_script, (text,), r),
        call_ensures(trim, (text,), bare),
    ensures
        readable <==> is_file && len > 0 && len <= 65536,
        r is Some <==> bare@.len() > 0,
        r is Some ==> r->0@ == bare@,
{
}

/// The card shows a command as it is, unless that reads its standard input: then
/// it shows the script, or says that it could not be read.
pub proof fn card_shows_command_or_script(
    command: Option<String>,
    script: Option<String>,
    r: (Option<String>, bool),
    text: &str,
    reads: bool,
)
    requires
        call_ensures(card_command, (command, script), r),
        command is Some ==> text@ == command->0@,
        call_ensures(reads_stdin, (text,), reads),
    ensures
        r.0 is Some <==> command is Some,
        r.1 <==> command is Some && reads && script is Some,
        r.1 ==> r.0->0@ == script->0@,
        command is Some && !reads ==> r.0->0@ == command->0@,
        command is Some && reads && script is None ==> r.0->0@ == command->0@
            + "   (script piped on stdin \u{2014} not readable)"@,
{
}

/// The card shows who asks, for what key, from where and to what end, each as it
/// is known.
pub proof fn card_shows_what_is_known(
    who: &Attribution,
    headline: &str,
    key: &str,
    fp: &str,
    script: Option<String>,
    home: Option<&str>,
    agent: Option<&str>,
    card: Show,
    bare: Show,
    raw: Option<String>,
    command: (Option<String>, bool),
    names: Vec<String>,
    scope: crate::agent::approval::Scope,
    place: &str,
    shown: String,
)
    requires
        call_ensures(show, (who, headline, Some(key), Some(fp), script, home, agent), card),
        call_ensures(show, (who, headline, None, None, script, home, agent), bare),
        call_ensures(raw_command, (who,), raw),
        call_ensures(card_command, (raw, script), command),
        call_ensures(chain, (&who.ancestry, agent), names),
        call_ensures(crate::agent::approval::scope_of, (who,), scope),
        scope.directory is Some ==> place@ == scope.directory->0@,
        call_ensures(short_home, (place, home), shown),
    ensures
        card.headline@ == headline@,
        opt(card.key) == Some(key@),
        opt(card.fingerprint) == Some(fp@),
        bare.key is None && bare.fingerprint is None,
        card.app is Some <==> who.app is Some,
        card.app_bundle is Some <==> who.app is Some,
        who.app matches Some(a) ==> card.app->0@ == a.name@ && card.app_bundle->0@
            == a.bundle_path@,
        opt(card.process) == (if who.process is Some {
            opt(who.process->0.name)
        } else {
            None
        }),
        opt(card.host) == opt(who.purpose.host),
        opt(card.repo) == opt(who.purpose.repo),
        opt(card.command) == opt(command.0),
        card.script == command.1,
        each(card.chain@) == each(names@),
        card.directory is Some <==> scope.directory is Some,
        card.directory is Some ==> card.directory->0@ == shown@,
{
}

/// The session on the card has its title, and where it has none the identifier
/// that the environment gives it.
pub proof fn card_names_the_session(
    who: &Attribution,
    headline: &str,
    key: Option<&str>,
    fp: Option<&str>,
    script: Option<String>,
    home: Option<&str>,
    agent: Option<&str>,
    card: Show,
    name: &str,
    value: Option<String>,
)
    requires
        call_ensures(show, (who, headline, key, fp, script, home, agent), card),
        name@ == "CLAUDE_CODE_HOST_SESSION_ID"@,
        call_ensures(crate::attrib::Context::env_var, (&who.context, name), value),
    ensures
        who.context.session_title is Some ==> opt(card.session) == Some(
            who.context.session_title->0@,
        ),
        who.context.session_title is None ==> opt(card.session) == opt(value),
{
}

/// The card shows what the repository says, and of it nothing where there is none.
pub proof fn card_shows_the_repository(
    who: &Attribution,
    headline: &str,
    key: Option<&str>,
    fp: Option<&str>,
    script: Option<String>,
    home: Option<&str>,
    agent: Option<&str>,
    card: Show,
)
    requires
        call_ensures(show, (who, headline, key, fp, script, home, agent), card),
    ensures
        who.context.git matches Some(g) ==> {
            &&& opt(card.branch) == opt(g.branch)
            &&& opt(card.subject) == opt(g.subject)
            &&& card.commits@.len() == g.commits@.len()
            &&& forall|i: int|
                0 <= i < g.commits@.len() ==> (#[trigger] card.commits@[i])@ == g.commits@[i]@
            &&& card.commit_count == g.commit_count
            &&& opt(card.stat) == opt(g.stat)
            &&& opt(card.upstream) == opt(g.upstream)
            &&& card.remote is Some <==> g.push_remote is Some
            &&& g.push_remote is Some && g.push_remote_url is None ==> card.remote->0@
                == g.push_remote->0@
            &&& g.push_remote is Some && g.push_remote_url is Some ==> card.remote->0@
                == g.push_remote->0@ + seq![' ', '=', ' '] + g.push_remote_url->0@
        },
        who.context.git is None ==> {
            &&& card.branch is None && card.subject is None && card.remote is None
            &&& card.commits@.len() == 0 && card.commit_count is None
            &&& card.stat is None && card.upstream is None
        },
{
    reveal_strlit(" = ");
    assert(" = "@ =~= seq![' ', '=', ' ']);
    if who.context.git is Some {
        let g = who.context.git->0;
        assert(each(card.commits@).len() == each(g.commits@).len());
        assert forall|i: int| 0 <= i < g.commits@.len() implies (#[trigger] card.commits@[i])@
            == g.commits@[i]@ by {
            assert(each(card.commits@)[i] == each(g.commits@)[i]);
        }
    }
}

/// The card names the key and its fingerprint just where they are given.
pub proof fn card_names_the_key(
    who: &Attribution,
    headline: &str,
    key: Option<&str>,
    fp: Option<&str>,
    script: Option<String>,
    home: Option<&str>,
    agent: Option<&str>,
    card: Show,
)
    requires
        call_ensures(show, (who, headline, key, fp, script, home, agent), card),
    ensures
        card.key is Some <==> key is Some,
        key matches Some(k) ==> card.key->0@ == k@,
        card.fingerprint is Some <==> fp is Some,
        fp matches Some(f) ==> card.fingerprint->0@ == f@,
{
}

} // verus!
