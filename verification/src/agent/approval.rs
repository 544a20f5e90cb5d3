//! How far one approval reaches.

use crate::attrib::Attribution;
use crate::purpose::{Kind, Purpose};
use crate::text::{copied, opt, or_else, same_opt};
use vstd::prelude::*;

verus! {

/// The blast radius of one approval.
///
/// A window for reuse that knows no scope would let the approval of a push
/// cover an unrelated repository, or a login to another host, for the rest of
/// the window. The kind of the request is deliberately not part of the scope: a
/// fetch right after a push in the same checkout rides the same approval.
#[derive(Debug, PartialEq, Eq, Default)]
pub struct Scope {
    /// The repository the work is in, else the caller's working directory.
    pub directory: Option<String>,
    /// The SSH destination.
    pub host: Option<String>,
    /// The remote being pushed to or fetched from.
    pub repo: Option<String>,
}

/// The three places that make up a scope.
pub struct ScopeView {
    pub directory: Option<Seq<char>>,
    pub host: Option<Seq<char>>,
    pub repo: Option<Seq<char>>,
}

impl View for Scope {
    type V = ScopeView;

    open spec fn view(&self) -> ScopeView {
        ScopeView {
            directory: opt(self.directory),
            host: opt(self.host),
            repo: opt(self.repo),
        }
    }
}

impl Clone for Scope {
    fn clone(&self) -> (r: Self)
        ensures
            r == *self,
    {
        Scope {
            directory: copied(&self.directory),
            host: copied(&self.host),
            repo: copied(&self.repo),
        }
    }
}

impl Scope {
    /// Whether two scopes are the same place.
    pub fn same(&self, other: &Scope) -> (r: bool)
        ensures
            r == (self@ == other@),
    {
        same_opt(&self.directory, &other.directory) && same_opt(&self.host, &other.host)
            && same_opt(&self.repo, &other.repo)
    }
}

/// The scope of a request.
pub open spec fn scope_view(who: Attribution) -> ScopeView {
    ScopeView {
        directory: match who.purpose.repo_path {
            Some(p) => Some(p@),
            None => match who.process {
                Some(p) => opt(p.cwd),
                None => None,
            },
        },
        host: opt(who.purpose.host),
        repo: match who.context.git {
            Some(g) => match g.push_remote_url {
                Some(u) => Some(u@),
                None => opt(g.remote),
            },
            None => None,
        },
    }
}

/// The scope of a request.
pub fn scope_of(who: &Attribution) -> (s: Scope)
    ensures
        s@ == scope_view(*who),
{
    let cwd = match &who.process {
        Some(p) => copied(&p.cwd),
        None => None,
    };
    let repo = match &who.context.git {
        Some(g) => or_else(&g.push_remote_url, &g.remote),
        None => None,
    };
    Scope {
        directory: or_else(&who.purpose.repo_path, &cwd),
        host: copied(&who.purpose.host),
        repo,
    }
}

/// An approval: where it was granted, and when, in nanoseconds of a clock that
/// never runs backwards.
pub type Approval = (Scope, u128);

/// An earlier approval still covers a request from `scope`.
///
/// All times are in nanoseconds. An approval that lies in the future counts as
/// granted just now.
pub open spec fn covered(
    last: Option<(ScopeView, u128)>,
    scope: ScopeView,
    window: u128,
    now: u128,
) -> bool {
    match last {
        Some((granted, at)) => window > 0 && granted == scope && now - at < window,
        None => false,
    }
}

/// The place and the time of an approval.
pub open spec fn approval_view(last: Option<Approval>) -> Option<(ScopeView, u128)> {
    match last {
        Some((s, at)) => Some((s@, at)),
        None => None,
    }
}

/// Does an earlier approval still cover this request?
pub fn reuse_covers(last: Option<&Approval>, scope: &Scope, window: u128, now: u128) -> (r: bool)
    ensures
        r == covered(
            match last {
                Some(a) => approval_view(Some(*a)),
                None => None,
            },
            scope@,
            window,
            now,
        ),
{
    if window == 0 {
        return false;
    }
    match last {
        Some(a) => a.0.same(scope) && (now <= a.1 || now - a.1 < window),
        None => false,
    }
}

/// The approval that stands after a request from `scope` whose signature was
/// given or refused at the time `now`.
///
/// The window runs from the one authentication: a signature that rides on an
/// earlier approval does not start it again.
pub open spec fn approval_next(
    last: Option<(ScopeView, u128)>,
    scope: ScopeView,
    reused: bool,
    signed: bool,
    now: u128,
) -> Option<(ScopeView, u128)> {
    if signed && !reused {
        Some((scope, now))
    } else {
        last
    }
}

// ---------------------------------------------------------------------------
// Laws
// ---------------------------------------------------------------------------

/// An approval covers nothing outside the place it was granted for, and nothing
/// at all where reuse is switched off or nothing was approved yet.
pub proof fn approval_is_scoped(
    last: Option<(ScopeView, u128)>,
    scope: ScopeView,
    window: u128,
    now: u128,
)
    ensures
        covered(last, scope, window, now) ==> last is Some && (last->0).0 == scope,
        !covered(last, scope, 0, now),
        !covered(None, scope, window, now),
{
}

/// What an approval no longer covers, it does not cover later either.
pub proof fn approval_expires_for_good(
    last: Option<(ScopeView, u128)>,
    scope: ScopeView,
    window: u128,
    now: u128,
    later: u128,
)
    requires
        !covered(last, scope, window, now),
        now <= later,
    ensures
        !covered(last, scope, window, later),
{
}

/// A request for our own key: where it came from, when it was taken up, whether
/// it was signed, and when that was known.
pub struct Signing {
    pub scope: ScopeView,
    pub asked: u128,
    pub signed: bool,
    pub done: u128,
}

/// The approval that stands after a run of requests, where none stood before.
pub open spec fn approval_after(window: u128, run: Seq<Signing>) -> Option<(ScopeView, u128)>
    decreases run.len(),
{
    if run.len() == 0 {
        None
    } else {
        let before = approval_after(window, run.drop_last());
        let r = run.last();
        approval_next(before, r.scope, covered(before, r.scope, window, r.asked), r.signed, r.done)
    }
}

/// The `i`th request of a run rides on an earlier approval.
pub open spec fn rides(window: u128, run: Seq<Signing>, i: int) -> bool {
    covered(approval_after(window, run.take(i)), run[i].scope, window, run[i].asked)
}

/// The `i`th request of a run was authenticated anew, and signed.
pub open spec fn authenticated(window: u128, run: Seq<Signing>, i: int) -> bool {
    run[i].signed && !rides(window, run, i)
}

/// The `j`th request of a run is the last before the `i`th that was
/// authenticated anew.
pub open spec fn last_authenticated(window: u128, run: Seq<Signing>, i: int, j: int) -> bool {
    &&& 0 <= j < i
    &&& authenticated(window, run, j)
    &&& forall|k: int| j < k < i ==> !#[trigger] authenticated(window, run, k)
}

proof fn lemma_approval_dates(window: u128, run: Seq<Signing>, i: int)
    requires
        0 <= i <= run.len(),
        approval_after(window, run.take(i)) is Some,
    ensures
        exists|j: int| #[trigger]
            last_authenticated(window, run, i, j) && approval_after(window, run.take(i)) == Some(
                (run[j].scope, run[j].done),
            ),
    decreases i,
{
    assert(i > 0);
    let n = i - 1;
    assert(run.take(i).drop_last() =~= run.take(n));
    assert(run.take(i).last() == run[n]);
    if authenticated(window, run, n) {
        assert(last_authenticated(window, run, i, n));
    } else {
        lemma_approval_dates(window, run, n);
        let j = choose|j: int| #[trigger]
            last_authenticated(window, run, n, j) && approval_after(window, run.take(n)) == Some(
                (run[j].scope, run[j].done),
            );
        assert(last_authenticated(window, run, i, j));
    }
}

/// A request rides only on the last signature that was authenticated anew: one
/// from the same place, and within the window of it, however many signatures
/// rode on it in between.
pub proof fn reuse_dates_from_one_authentication(window: u128, run: Seq<Signing>, i: int)
    requires
        0 <= i < run.len(),
        rides(window, run, i),
    ensures
        exists|j: int| #[trigger]
            last_authenticated(window, run, i, j) && run[j].scope == run[i].scope && run[i].asked
                - run[j].done < window,
{
    lemma_approval_dates(window, run, i);
}

/// The kind of a request has no part in its scope: the same place is the same
/// scope, whatever is done there.
pub proof fn scope_ignores_kind(who: Attribution, kind: Kind)
    ensures
        scope_view(Attribution { purpose: Purpose { kind, ..who.purpose }, ..who }) == scope_view(
            who,
        ),
{
}

/// Two requests have the same scope if and only if they agree in the repository
/// path or else the working directory, in the host, and in the push address or
/// else the remote.
pub proof fn scope_is_three_places(a: &Attribution, s: Scope, b: &Attribution, t: Scope)
    requires
        call_ensures(scope_of, (a,), s),
        call_ensures(scope_of, (b,), t),
    ensures
        s@ == t@ <==> {
            &&& place_of(*a) == place_of(*b)
            &&& opt(a.purpose.host) == opt(b.purpose.host)
            &&& address_of(*a) == address_of(*b)
        },
        opt(s.directory) == place_of(*a),
        opt(s.host) == opt(a.purpose.host),
        opt(s.repo) == address_of(*a),
{
}

/// The directory that a request comes from: that of the repository, else that of
/// the process.
pub open spec fn place_of(who: Attribution) -> Option<Seq<char>> {
    if who.purpose.repo_path is Some {
        Some(who.purpose.repo_path->0@)
    } else if who.process is Some && who.process->0.cwd is Some {
        Some(who.process->0.cwd->0@)
    } else {
        None
    }
}

/// The remote that a request is about: the address of a push, else the remote of
/// the branch.
pub open spec fn address_of(who: Attribution) -> Option<Seq<char>> {
    if who.context.git is Some && who.context.git->0.push_remote_url is Some {
        Some(who.context.git->0.push_remote_url->0@)
    } else if who.context.git is Some && who.context.git->0.remote is Some {
        Some(who.context.git->0.remote->0@)
    } else {
        None
    }
}

/// Two requests whose push addresses differ never have the same scope, and so no
/// approval of the one covers the other.
pub proof fn push_address_divides(
    a: &Attribution,
    s: Scope,
    b: &Attribution,
    t: Scope,
    at: u128,
    window: u128,
    now: u128,
    r: bool,
)
    requires
        call_ensures(scope_of, (a,), s),
        call_ensures(scope_of, (b,), t),
        a.context.git is Some,
        a.context.git->0.push_remote_url is Some,
        b.context.git is Some,
        b.context.git->0.push_remote_url is Some,
        a.context.git->0.push_remote_url->0@ != b.context.git->0.push_remote_url->0@,
        call_ensures(reuse_covers, (Some(&(s, at)), &t, window, now), r),
    ensures
        s@ != t@,
        !r,
{
    assert(s@.repo != t@.repo);
}

/// An approval covers a request exactly where there is one, reuse is on, all
/// three places are the same, and the window since it has not run out.
pub proof fn reuse_is_exact(
    granted: Scope,
    at: u128,
    scope: &Scope,
    window: u128,
    now: u128,
    r: bool,
    never: bool,
)
    requires
        call_ensures(reuse_covers, (Some(&(granted, at)), scope, window, now), r),
        call_ensures(reuse_covers, (None, scope, window, now), never),
    ensures
        !never,
        r <==> {
            &&& window > 0
            &&& opt(granted.directory) == opt(scope.directory)
            &&& opt(granted.host) == opt(scope.host)
            &&& opt(granted.repo) == opt(scope.repo)
            &&& now < at + window
        },
{
}

/// A scope is the same as another just where all three places are.
pub proof fn scopes_are_compared_whole(a: &Scope, b: &Scope, r: bool, c: Scope)
    requires
        call_ensures(Scope::same, (a, b), r),
        call_ensures(Scope::clone, (a,), c),
    ensures
        r <==> opt(a.directory) == opt(b.directory) && opt(a.host) == opt(b.host) && opt(a.repo)
            == opt(b.repo),
        opt(c.directory) == opt(a.directory) && opt(c.host) == opt(a.host) && opt(c.repo) == opt(
            a.repo,
        ),
{
}

} // verus!
