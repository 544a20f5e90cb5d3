//! The one line that the authentication prompt shows.
//!
//! The panel is narrow, so the line has to be read at a glance: it carries no
//! shell text and no quotes, and it is short enough not to wrap.

use crate::attrib::{App, Attribution};
use crate::purpose::{shorten, shortened, Kind, Purpose, ELLIPSIS};
use crate::text::{
    after_last, chars_of, concat2, concat3, is_white, joined, strip_all, tail_after,
    tail_has_no_separator, tail_is_suffix, trim_end_matches, white,
};
use vstd::prelude::*;

verus! {

/// The most characters that the prompt may have.
pub const PROMPT_MAX: usize = 56;

/// The most characters of a remote repository that are shown with its owner.
pub const REPO_MAX: usize = 28;

// ---------------------------------------------------------------------------
// Cleaning
// ---------------------------------------------------------------------------

/// A character that only separates words: white space, a quote or a backtick.
pub open spec fn noise(c: char) -> bool {
    white(c) || c == '`' || c == '"' || c == '\''
}

/// The words of `s` in order: its maximal runs of characters that are no noise.
pub open spec fn words(s: Seq<char>) -> Seq<Seq<char>>
    decreases s.len(),
{
    if s.len() == 0 {
        seq![]
    } else {
        let before = words(s.drop_last());
        if noise(s.last()) {
            before
        } else if s.len() == 1 || noise(s[s.len() - 2]) {
            before.push(seq![s.last()])
        } else {
            before.drop_last().push(before.last().push(s.last()))
        }
    }
}

/// The words of `s` with one space between each two.
pub open spec fn sanitised(s: Seq<char>) -> Seq<char> {
    joined(words(s), " "@)
}

/// How the cleaned text grows with one more character.
proof fn lemma_sanitised_step(s: Seq<char>)
    requires
        s.len() > 0,
    ensures
        words(s.drop_last()).len() == 0 <==> sanitised(s.drop_last()).len() == 0,
        words(s).len() == 0 <==> sanitised(s).len() == 0,
        s.len() > 1 && !noise(s[s.len() - 2]) ==> words(s.drop_last()).len() > 0,
        sanitised(s) == ({
            let before = sanitised(s.drop_last());
            if noise(s.last()) {
                before
            } else if before.len() > 0 && noise(s[s.len() - 2]) {
                before + " "@ + seq![s.last()]
            } else {
                before.push(s.last())
            }
        }),
    decreases s.len(),
{
    reveal_strlit(" ");
    let t = s.drop_last();
    let w = words(t);
    let c = s.last();
    if t.len() > 0 {
        lemma_sanitised_step(t);
    }
    if !noise(c) {
        if s.len() == 1 || noise(s[s.len() - 2]) {
            let v = w.push(seq![c]);
            assert(v.drop_last() =~= w);
            if w.len() == 0 {
                assert(sanitised(s) =~= seq![c]);
                assert(sanitised(t).push(c) =~= seq![c]);
            }
        } else {
            let v = w.drop_last().push(w.last().push(c));
            assert(v.drop_last() =~= w.drop_last());
            if w.len() == 1 {
                assert(sanitised(s) =~= sanitised(t).push(c));
            } else {
                assert(joined(w.drop_last(), " "@) + " "@ + w.last().push(c) =~= (joined(
                    w.drop_last(),
                    " "@,
                ) + " "@ + w.last()).push(c));
            }
        }
    }
}

/// `s` stripped of what turns the prompt into noise: quotes and backticks count
/// as white space, and all white space between two words is one space.
pub fn sanitise(s: &str) -> (r: String)
    ensures
        r@ == sanitised(s@),
{
    let v = chars_of(s);
    let mut r = String::new();
    let mut some = false;
    let mut i: usize = 0;
    assert(sanitised(v@.take(0)) =~= seq![]);
    while i < v.len()
        invariant
            v@ == s@,
            0 <= i <= v@.len(),
            r@ == sanitised(v@.take(i as int)),
            some == (r@.len() > 0),
        decreases v@.len() - i,
    {
        proof {
            lemma_sanitised_step(v@.take(i + 1));
            assert(v@.take(i + 1).drop_last() =~= v@.take(i as int));
            reveal_strlit(" ");
        }
        if !is_noise(v[i]) {
            if some && is_noise(v[i - 1]) {
                r.push(' ');
            }
            r.push(v[i]);
            some = true;
            assert(r@ =~= sanitised(v@.take(i + 1)));
        }
        i = i + 1;
    }
    assert(v@.take(v@.len() as int) =~= v@);
    r
}

/// Whether `c` only separates words.
pub fn is_noise(c: char) -> (r: bool)
    ensures
        r == noise(c),
{
    is_white(c) || c == '`' || c == '"' || c == '\''
}

// ---------------------------------------------------------------------------
// The line
// ---------------------------------------------------------------------------

/// `owner/repo.git` as `owner/repo`, and as `repo` where that is still long.
pub open spec fn short_repo_text(r: Seq<char>) -> Seq<char> {
    let s = strip_all(r, ".git"@);
    if s.len() <= REPO_MAX {
        s
    } else {
        tail_after(s, '/')
    }
}

/// `owner/repo.git` as `owner/repo`, and as `repo` where that is still long.
pub fn short_repo(r: &str) -> (s: String)
    ensures
        s@ == short_repo_text(r@),
{
    let s = trim_end_matches(r, ".git");
    if s.as_str().unicode_len() <= REPO_MAX {
        return s;
    }
    after_last(s.as_str(), '/')
}

/// The host, or words for a host that is not known.
pub open spec fn host_text(p: Purpose) -> Seq<char> {
    match p.host {
        Some(h) => h@,
        None => "unknown host"@,
    }
}

/// What a request asks to do, in words, at whatever length.
pub open spec fn action_text(p: Purpose) -> Seq<char> {
    match p.kind {
        Kind::CommitSigning => match p.repo {
            Some(repo) => "Sign a commit in "@ + repo@,
            None => "Sign a git commit"@,
        },
        Kind::GitPush => match p.remote_repo {
            Some(r) => "git push to "@ + short_repo_text(r@),
            None => "git push to "@ + host_text(p),
        },
        Kind::GitFetch => match p.remote_repo {
            Some(r) => "git fetch from "@ + short_repo_text(r@),
            None => "git fetch from "@ + host_text(p),
        },
        Kind::GitOverSsh => "git on "@ + host_text(p),
        Kind::SshLogin => "SSH to "@ + host_text(p),
        Kind::RemoteCommand => "Run a command on "@ + host_text(p),
        Kind::FileTransfer => "Copy files with "@ + host_text(p),
        Kind::Signing => match p.namespace {
            Some(ns) => "Sign data ("@ + ns@ + ")"@,
            None => "Sign data"@,
        },
        Kind::Unknown => "Authorise a signature"@,
    }
}

/// What a request asks to do, as the prompt says it.
pub open spec fn prompt_text(p: Purpose) -> Seq<char> {
    shortened(sanitised(action_text(p)), PROMPT_MAX as nat)
}

/// What a request asks to do, as the prompt says it.
///
/// The command that runs on the host and the subject of a commit are left out:
/// they are long, and the card shows them.
pub fn prompt_action(who: &Attribution) -> (r: String)
    ensures
        r@ == prompt_text(who.purpose),
        r@.len() <= PROMPT_MAX,
{
    let p = &who.purpose;
    let host = match &p.host {
        Some(h) => h.clone(),
        None => "unknown host".to_owned(),
    };
    let action = match p.kind {
        Kind::CommitSigning => match &p.repo {
            Some(repo) => concat2("Sign a commit in ", repo.as_str()),
            None => "Sign a git commit".to_owned(),
        },
        Kind::GitPush => match &p.remote_repo {
            Some(r) => concat2("git push to ", short_repo(r.as_str()).as_str()),
            None => concat2("git push to ", host.as_str()),
        },
        Kind::GitFetch => match &p.remote_repo {
            Some(r) => concat2("git fetch from ", short_repo(r.as_str()).as_str()),
            None => concat2("git fetch from ", host.as_str()),
        },
        Kind::GitOverSsh => concat2("git on ", host.as_str()),
        Kind::SshLogin => concat2("SSH to ", host.as_str()),
        Kind::RemoteCommand => concat2("Run a command on ", host.as_str()),
        Kind::FileTransfer => concat2("Copy files with ", host.as_str()),
        Kind::Signing => match &p.namespace {
            Some(ns) => concat3("Sign data (", ns.as_str(), ")"),
            None => "Sign data".to_owned(),
        },
        Kind::Unknown => "Authorise a signature".to_owned(),
    };
    shorten(sanitise(action.as_str()).as_str(), PROMPT_MAX)
}

/// What the system sheet says.
pub open spec fn sheet_text(
    p: Purpose,
    app: Option<App>,
    configured: Seq<char>,
) -> Seq<char> {
    let action = prompt_text(p);
    if configured.len() > 0 {
        shortened(sanitised(configured), PROMPT_MAX as nat)
    } else if app is Some && action.len() + sanitised(app->0.name@).len() + 3 <= PROMPT_MAX {
        action + " \u{b7} "@ + sanitised(app->0.name@)
    } else {
        action
    }
}

/// What the system sheet says: the configured text where there is one, else the
/// action, with the name of the app where both fit.
pub fn sheet_reason(who: &Attribution, configured: &str) -> (r: String)
    ensures
        r@ == sheet_text(who.purpose, who.app, configured@),
        r@.len() <= PROMPT_MAX,
{
    if !configured.is_empty() {
        return shorten(sanitise(configured).as_str(), PROMPT_MAX);
    }
    let action = prompt_action(who);
    proof {
        reveal_strlit(" \u{b7} ");
    }
    match &who.app {
        Some(app) => {
            let name = sanitise(app.name.as_str());
            let a: usize = action.as_str().unicode_len();
            let n: usize = name.as_str().unicode_len();
            if n <= PROMPT_MAX && a + n + 3 <= PROMPT_MAX {
                concat3(action.as_str(), " \u{b7} ", name.as_str())
            } else {
                action
            }
        },
        None => action,
    }
}

// ---------------------------------------------------------------------------
// Laws
// ---------------------------------------------------------------------------

/// `t` begins and ends with a character that is no noise, and holds no noise
/// but single spaces.
pub open spec fn is_clean(t: Seq<char>) -> bool {
    &&& t.len() > 0 ==> !noise(t[0]) && !noise(t.last())
    &&& forall|i: int|
        0 <= i < t.len() && noise(#[trigger] t[i]) ==> t[i] == ' ' && i + 1 < t.len() && !noise(
            t[i + 1],
        )
}

/// A cleaned text holds no quote, no backtick and no white space but single
/// spaces between words.
pub proof fn sanitised_is_clean(s: Seq<char>)
    ensures
        is_clean(sanitised(s)),
    decreases s.len(),
{
    reveal_strlit(" ");
    if s.len() > 0 {
        let t = s.drop_last();
        sanitised_is_clean(t);
        lemma_sanitised_step(s);
        let before = sanitised(t);
        let now = sanitised(s);
        if !noise(s.last()) {
            assert forall|i: int| 0 <= i < now.len() && noise(#[trigger] now[i]) implies now[i]
                == ' ' && i + 1 < now.len() && !noise(now[i + 1]) by {
                if i < before.len() {
                    assert(now[i] == before[i]);
                    assert(noise(before[i]));
                    assert(now[i + 1] == before[i + 1]);
                }
            }
        }
    } else {
        assert(sanitised(s) =~= seq![]);
    }
}

/// A clean text is left as it is.
pub proof fn clean_stays(t: Seq<char>)
    requires
        is_clean(t),
    ensures
        sanitised(t) == t,
{
    lemma_clean_prefix(t, t.len() as int);
    assert(t.take(t.len() as int) =~= t);
}

proof fn lemma_clean_prefix(t: Seq<char>, n: int)
    requires
        is_clean(t),
        0 <= n <= t.len(),
    ensures
        n > 0 && noise(t[n - 1]) ==> sanitised(t.take(n)) == t.take(n - 1),
        !(n > 0 && noise(t[n - 1])) ==> sanitised(t.take(n)) == t.take(n),
    decreases n,
{
    reveal_strlit(" ");
    let s = t.take(n);
    if n == 0 {
        assert(sanitised(s) =~= s);
    } else {
        lemma_clean_prefix(t, n - 1);
        lemma_sanitised_step(s);
        assert(s.drop_last() =~= t.take(n - 1));
        assert(s.last() == t[n - 1]);
        if n >= 2 {
            assert(s[n - 2] == t[n - 2]);
        }
        if noise(t[n - 1]) {
            if n >= 2 && noise(t[n - 2]) {
                assert(false);
            }
        } else if n >= 2 && noise(t[n - 2]) {
            assert(n - 2 > 0);
            assert(t.take(n - 2) + " "@ + seq![t[n - 1]] =~= t.take(n));
        } else {
            assert(t.take(n - 1).push(t[n - 1]) =~= t.take(n));
        }
    }
}

/// Cleaning twice is cleaning once.
pub proof fn sanitise_is_idempotent(s: Seq<char>)
    ensures
        sanitised(sanitised(s)) == sanitised(s),
{
    sanitised_is_clean(s);
    clean_stays(sanitised(s));
}

/// A text that may stand in the prompt: short, and with no quote, backtick,
/// newline or tab in it.
pub open spec fn fits_prompt(t: Seq<char>) -> bool {
    &&& t.len() <= PROMPT_MAX
    &&& forall|i: int| 0 <= i < t.len() && noise(#[trigger] t[i]) ==> t[i] == ' '
}

proof fn lemma_shortened_fits(s: Seq<char>)
    requires
        is_clean(s),
    ensures
        fits_prompt(shortened(s, PROMPT_MAX as nat)),
{
    let t = shortened(s, PROMPT_MAX as nat);
    assert(!noise(ELLIPSIS));
    assert forall|i: int| 0 <= i < t.len() && noise(#[trigger] t[i]) implies t[i] == ' ' by {
        if i < PROMPT_MAX - 1 || s.len() <= PROMPT_MAX {
            assert(t[i] == s[i]);
        }
    }
}

/// Whatever the request, the configuration and the app, the prompt and the
/// sheet are short and hold no quote, backtick, newline or tab.
pub proof fn prompt_is_legible(p: Purpose, app: Option<App>, configured: Seq<char>)
    ensures
        fits_prompt(prompt_text(p)),
        fits_prompt(sheet_text(p, app, configured)),
{
    reveal_strlit(" \u{b7} ");
    sanitised_is_clean(action_text(p));
    lemma_shortened_fits(sanitised(action_text(p)));
    sanitised_is_clean(configured);
    lemma_shortened_fits(sanitised(configured));
    if app is Some {
        sanitised_is_clean(app->0.name@);
    }
}

/// The command that runs on the host never reaches the prompt or the sheet.
pub proof fn prompt_hides_command(
    p: Purpose,
    command: Option<String>,
    app: Option<App>,
    configured: Seq<char>,
)
    ensures
        ({
            let q = Purpose { remote_command: command, ..p };
            prompt_text(q) == prompt_text(p) && sheet_text(q, app, configured) == sheet_text(
                p,
                app,
                configured,
            )
        }),
{
}

/// Two cleaned texts with one space between them, where neither is empty.
pub open spec fn glued(a: Seq<char>, b: Seq<char>) -> Seq<char> {
    if a.len() == 0 {
        b
    } else if b.len() == 0 {
        a
    } else {
        a + seq![' '] + b
    }
}

proof fn lemma_noise_separates(a: Seq<char>, c: char, b: Seq<char>)
    requires
        noise(c),
    ensures
        sanitised(a + seq![c] + b) == glued(sanitised(a), sanitised(b)),
    decreases b.len(),
{
    reveal_strlit(" ");
    let s = a + seq![c] + b;
    lemma_sanitised_step(s);
    assert(" "@ =~= seq![' ']);
    if b.len() == 0 {
        assert(s.drop_last() =~= a);
        assert(s.last() == c);
        assert(sanitised(b) =~= seq![]);
    } else {
        let init = b.drop_last();
        let x = b.last();
        lemma_noise_separates(a, c, init);
        lemma_sanitised_step(b);
        assert(s.drop_last() =~= a + seq![c] + init);
        assert(s.last() == x);
        let before = sanitised(s.drop_last());
        let left = sanitised(a);
        let right = sanitised(init);
        if init.len() == 0 {
            assert(right =~= seq![]);
            assert(s[s.len() - 2] == c);
        } else {
            assert(s[s.len() - 2] == b[b.len() - 2]);
        }
        if !noise(x) {
            assert(sanitised(s) =~= glued(left, sanitised(b)));
        }
    }
}

/// Quotes, backticks and white space of any kind only part what stands on their
/// two sides: each side is cleaned by itself, with one space between.
pub proof fn noise_separates(
    a: &str,
    c: char,
    b: &str,
    s: &str,
    left: String,
    right: String,
    r: String,
)
    requires
        white(c) || c == '`' || c == '"' || c == '\'',
        s@ == a@ + seq![c] + b@,
        call_ensures(sanitise, (a,), left),
        call_ensures(sanitise, (b,), right),
        call_ensures(sanitise, (s,), r),
    ensures
        r@ == (if left@.len() == 0 {
            right@
        } else if right@.len() == 0 {
            left@
        } else {
            left@ + seq![' '] + right@
        }),
{
    lemma_noise_separates(a@, c, b@);
}

/// A word in which there is no quote, no backtick and no white space is kept.
pub proof fn word_is_kept(s: &str, r: String)
    requires
        forall|i: int|
            0 <= i < s@.len() ==> !white(#[trigger] s@[i]) && s@[i] != '`' && s@[i] != '"' && s@[i]
                != '\'',
        call_ensures(sanitise, (s,), r),
    ensures
        r@ == s@,
{
    clean_stays(s@);
}

/// A text of at most 56 characters, and the first 55 with an ellipsis of a longer
/// one.
pub open spec fn in_one_line(t: Seq<char>) -> Seq<char> {
    if t.len() <= 56 {
        t
    } else {
        t.take(55).push('\u{2026}')
    }
}

proof fn lemma_heads_git()
    ensures
        is_clean("git push to"@),
        0 < "git push to"@.len() < 40,
        is_clean("git fetch from"@),
        0 < "git fetch from"@.len() < 40,
        is_clean("git on"@),
        0 < "git on"@.len() < 40,
        "git push to "@ == "git push to"@ + seq![' '],
        "git fetch from "@ == "git fetch from"@ + seq![' '],
        "git on "@ == "git on"@ + seq![' '],
{
    reveal_strlit("git push to");
    reveal_strlit("git push to ");
    assert("git push to "@ =~= "git push to"@ + seq![' ']);
    reveal_strlit("git fetch from");
    reveal_strlit("git fetch from ");
    assert("git fetch from "@ =~= "git fetch from"@ + seq![' ']);
    reveal_strlit("git on");
    reveal_strlit("git on ");
    assert("git on "@ =~= "git on"@ + seq![' ']);
}

proof fn lemma_heads_ssh()
    ensures
        is_clean("SSH to"@),
        0 < "SSH to"@.len() < 40,
        is_clean("Run a command on"@),
        0 < "Run a command on"@.len() < 40,
        is_clean("Copy files with"@),
        0 < "Copy files with"@.len() < 40,
        "SSH to "@ == "SSH to"@ + seq![' '],
        "Run a command on "@ == "Run a command on"@ + seq![' '],
        "Copy files with "@ == "Copy files with"@ + seq![' '],
{
    reveal_strlit("SSH to");
    reveal_strlit("SSH to ");
    assert("SSH to "@ =~= "SSH to"@ + seq![' ']);
    reveal_strlit("Run a command on");
    reveal_strlit("Run a command on ");
    assert("Run a command on "@ =~= "Run a command on"@ + seq![' ']);
    reveal_strlit("Copy files with");
    reveal_strlit("Copy files with ");
    assert("Copy files with "@ =~= "Copy files with"@ + seq![' ']);
}

proof fn lemma_heads_sign()
    ensures
        is_clean("Sign a commit in"@),
        0 < "Sign a commit in"@.len() < 40,
        is_clean("Sign a git commit"@),
        0 < "Sign a git commit"@.len() < 40,
        is_clean("Sign data"@),
        0 < "Sign data"@.len() < 40,
        is_clean("Authorise a signature"@),
        0 < "Authorise a signature"@.len() < 40,
        "Sign a commit in "@ == "Sign a commit in"@ + seq![' '],
        "Sign data ("@ == "Sign data"@ + seq![' '] + "("@,
{
    reveal_strlit("Sign a commit in");
    reveal_strlit("Sign a commit in ");
    assert("Sign a commit in "@ =~= "Sign a commit in"@ + seq![' ']);
    reveal_strlit("Sign a git commit");
    reveal_strlit("Sign data");
    reveal_strlit("Authorise a signature");
    reveal_strlit("Sign data (");
    reveal_strlit("(");
    assert("Sign data ("@ =~= "Sign data"@ + seq![' '] + "("@);
}


/// A head and what follows it, cleaned, in one line.
proof fn lemma_line(head: Seq<char>, tail: Seq<char>)
    requires
        is_clean(head),
    ensures
        shortened(sanitised(head + seq![' '] + tail), PROMPT_MAX as nat) == in_one_line(
            glued(head, sanitised(tail)),
        ),
        shortened(sanitised(head), PROMPT_MAX as nat) == in_one_line(head),
{
    lemma_noise_separates(head, ' ', tail);
    clean_stays(head);
}

/// The prompt says what is asked for: each kind of request has its own words, and
/// they are followed by the host, the repository or the namespace that the request
/// is about.
pub proof fn prompt_says_what_is_asked(
    who: &Attribution,
    remote: &str,
    short: String,
    r: String,
)
    requires
        call_ensures(prompt_action, (who,), r),
        who.purpose.remote_repo is Some ==> remote@ == who.purpose.remote_repo->0@,
        call_ensures(short_repo, (remote,), short),
    ensures
        ({
            let p = who.purpose;
            let host = if p.host is Some {
                p.host->0@
            } else {
                "unknown host"@
            };
            let target = sanitised(
                if p.remote_repo is Some {
                    short@
                } else {
                    host
                },
            );
            match p.kind {
                Kind::CommitSigning => if p.repo is Some {
                    r@ == in_one_line(glued("Sign a commit in"@, sanitised(p.repo->0@)))
                } else {
                    r@ == "Sign a git commit"@
                },
                Kind::GitPush => r@ == in_one_line(glued("git push to"@, target)),
                Kind::GitFetch => r@ == in_one_line(glued("git fetch from"@, target)),
                Kind::GitOverSsh => r@ == in_one_line(glued("git on"@, sanitised(host))),
                Kind::SshLogin => r@ == in_one_line(glued("SSH to"@, sanitised(host))),
                Kind::RemoteCommand => r@ == in_one_line(
                    glued("Run a command on"@, sanitised(host)),
                ),
                Kind::FileTransfer => r@ == in_one_line(
                    glued("Copy files with"@, sanitised(host)),
                ),
                Kind::Signing => if p.namespace is Some {
                    r@ == in_one_line(
                        glued("Sign data"@, sanitised("("@ + p.namespace->0@ + ")"@)),
                    )
                } else {
                    r@ == "Sign data"@
                },
                Kind::Unknown => r@ == "Authorise a signature"@,
            }
        }),
{
    lemma_heads_git();
    lemma_heads_ssh();
    lemma_heads_sign();
    let p = who.purpose;
    let host = host_text(p);
    let target = if p.remote_repo is Some {
        short@
    } else {
        host
    };
    match p.kind {
        Kind::CommitSigning => {
            if p.repo is Some {
                lemma_line("Sign a commit in"@, p.repo->0@);
            }
            lemma_line("Sign a git commit"@, seq![]);
        },
        Kind::GitPush => {
            lemma_line("git push to"@, target);
        },
        Kind::GitFetch => {
            lemma_line("git fetch from"@, target);
        },
        Kind::GitOverSsh => {
            lemma_line("git on"@, host);
        },
        Kind::SshLogin => {
            lemma_line("SSH to"@, host);
        },
        Kind::RemoteCommand => {
            lemma_line("Run a command on"@, host);
        },
        Kind::FileTransfer => {
            lemma_line("Copy files with"@, host);
        },
        Kind::Signing => {
            if p.namespace is Some {
                let tail = "("@ + p.namespace->0@ + ")"@;
                assert("Sign data ("@ + p.namespace->0@ + ")"@ =~= "Sign data"@ + seq![' '] + tail);
                lemma_line("Sign data"@, tail);
            }
            lemma_line("Sign data"@, seq![]);
        },
        Kind::Unknown => {
            lemma_line("Authorise a signature"@, seq![]);
        },
    }
}

/// The prompt for a push begins with the words for a push, and that for a fetch
/// with those for a fetch, whatever else is known; so neither reads as the other.
pub proof fn push_and_fetch_read_apart(
    push: &Attribution,
    fetch: &Attribution,
    remote: &str,
    other: &str,
    s: String,
    t: String,
    r: String,
    q: String,
)
    requires
        push.purpose.kind == Kind::GitPush,
        fetch.purpose.kind == Kind::GitFetch,
        push.purpose.remote_repo is Some ==> remote@ == push.purpose.remote_repo->0@,
        fetch.purpose.remote_repo is Some ==> other@ == fetch.purpose.remote_repo->0@,
        call_ensures(short_repo, (remote,), s),
        call_ensures(short_repo, (other,), t),
        call_ensures(prompt_action, (push,), r),
        call_ensures(prompt_action, (fetch,), q),
    ensures
        "git push to"@.is_prefix_of(r@),
        "git fetch from"@.is_prefix_of(q@),
        r@ != q@,
{
    prompt_says_what_is_asked(push, remote, s, r);
    prompt_says_what_is_asked(fetch, other, t, q);
    reveal_strlit("git push to");
    reveal_strlit("git fetch from");
    assert(r@.subrange(0, 11) =~= "git push to"@);
    assert(q@.subrange(0, 14) =~= "git fetch from"@);
    assert(r@[4] == 'p' && q@[4] == 'f') by {
        assert(r@[4] == r@.subrange(0, 11)[4]);
        assert(q@[4] == q@.subrange(0, 14)[4]);
    }
}

/// The prompt depends on the kind of the request, the host, the remote repository
/// and the namespace alone, and for a commit on the local repository's name.
pub proof fn prompt_depends_on_its_subject(
    a: &Attribution,
    b: &Attribution,
    r: String,
    q: String,
)
    requires
        call_ensures(prompt_action, (a,), r),
        call_ensures(prompt_action, (b,), q),
        a.purpose.kind == b.purpose.kind,
        a.purpose.host == b.purpose.host,
        a.purpose.remote_repo == b.purpose.remote_repo,
        a.purpose.namespace == b.purpose.namespace,
        a.purpose.kind == Kind::CommitSigning ==> a.purpose.repo == b.purpose.repo,
    ensures
        r@ == q@,
{
}

/// The sheet says what is configured, cleaned and in one line, whoever asks; and
/// where nothing is, what the prompt says, with the name of the app behind it just
/// where both fit.
pub proof fn sheet_says_what_is_asked(
    who: &Attribution,
    configured: &str,
    r: String,
    prompt: String,
    name: &str,
    app: String,
)
    requires
        call_ensures(sheet_reason, (who, configured), r),
        call_ensures(prompt_action, (who,), prompt),
        who.app is Some ==> name@ == who.app->0.name@,
        call_ensures(sanitise, (name,), app),
    ensures
        configured@.len() > 0 ==> r@ == in_one_line(sanitised(configured@)),
        configured@.len() == 0 && (who.app is None || prompt@.len() + 3 + app@.len() > 56) ==> r@
            == prompt@,
        configured@.len() == 0 && who.app is Some && prompt@.len() + 3 + app@.len() <= 56 ==> r@
            == prompt@ + seq![' ', '\u{b7}', ' '] + app@,
        r@.len() <= 56,
{
    reveal_strlit(" \u{b7} ");
    assert(" \u{b7} "@ =~= seq![' ', '\u{b7}', ' ']);
}

/// A repository is shown without `.git`, whole where that has at most 28
/// characters, and else only the part behind the last slash.
pub proof fn repo_is_shown_short(r: &str, longer: &str, s: String, t: String)
    requires
        call_ensures(short_repo, (r,), s),
        call_ensures(short_repo, (longer,), t),
        longer@ == r@ + ".git"@,
    ensures
        t@ == s@,
        !".git"@.is_suffix_of(r@) && r@.len() <= 28 ==> s@ == r@,
        !".git"@.is_suffix_of(r@) && r@.len() > 28 ==> {
            &&& s@.len() <= r@.len()
            &&& s@ == r@.skip(r@.len() - s@.len())
            &&& s@.len() == r@.len() || r@[r@.len() - s@.len() - 1] == '/'
            &&& forall|i: int| 0 <= i < s@.len() ==> s@[i] != '/'
        },
{
    reveal_strlit(".git");
    let l = longer@;
    assert(l.subrange(l.len() - 4, l.len() as int) =~= ".git"@);
    assert(l.take(l.len() - 4) =~= r@);
    tail_is_suffix(r@, '/');
    tail_has_no_separator(r@, '/');
}

} // verus!
