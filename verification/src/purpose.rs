//! What a request was for.

use crate::text::{chars_of, text_of};
use vstd::prelude::*;

verus! {

/// The kinds of work that a signature is asked for.
#[derive(Debug, Clone, Copy, PartialEq, Eq, Structural)]
pub enum Kind {
    /// git signs a commit.
    CommitSigning,
    /// git pushes to a remote.
    GitPush,
    /// git fetches from a remote.
    GitFetch,
    /// git talks to a host, and more is not known.
    GitOverSsh,
    /// A login shell on a host.
    SshLogin,
    /// One command on a host.
    RemoteCommand,
    /// Files are copied to or from a host.
    FileTransfer,
    /// Data other than a commit is signed.
    Signing,
    /// Nothing is known.
    Unknown,
}

/// What a request was for, as far as it could be found out.
#[derive(Debug, Clone)]
pub struct Purpose {
    pub kind: Kind,
    /// The SSH destination.
    pub host: Option<String>,
    /// The name of the local repository.
    pub repo: Option<String>,
    /// Where the local repository lies.
    pub repo_path: Option<String>,
    /// The repository on the remote, such as `owner/repo.git`.
    pub remote_repo: Option<String>,
    /// The command that runs on the host.
    pub remote_command: Option<String>,
    /// What the signed data is for.
    pub namespace: Option<String>,
}

/// The mark that stands for what was cut off.
pub const ELLIPSIS: char = '\u{2026}';

/// `s` cut to at most `max` characters, the last of which is then an ellipsis.
pub open spec fn shortened(s: Seq<char>, max: nat) -> Seq<char> {
    if s.len() <= max {
        s
    } else if max == 0 {
        seq![]
    } else {
        s.take(max - 1).push(ELLIPSIS)
    }
}

/// `s` cut to at most `max` characters, the last of which is then an ellipsis.
pub fn shorten(s: &str, max: usize) -> (r: String)
    ensures
        r@ == shortened(s@, max as nat),
        r@.len() <= max,
{
    let v = chars_of(s);
    if v.len() <= max {
        return s.to_owned();
    }
    if max == 0 {
        return String::new();
    }
    let mut r = text_of(&v, 0, max - 1);
    assert(r@ =~= s@.take(max - 1));
    r.push(ELLIPSIS);
    r
}

/// What fits is kept, and of anything longer all but the last of the characters
/// that fit, with an ellipsis behind them.
pub proof fn shortening_keeps_the_front(s: &str, max: usize, r: String)
    requires
        call_ensures(shorten, (s, max), r),
    ensures
        s@.len() <= max ==> r@ == s@,
        s@.len() > max ==> r@.len() == max,
        s@.len() > max && max > 0 ==> r@.take(max - 1) == s@.take(max - 1) && r@.last()
            == '\u{2026}',
{
    if s@.len() > max && max > 0 {
        assert(r@.take(max - 1) =~= s@.take(max - 1));
    }
}

} // verus!
