//! Who asked: the process behind a request, the processes it descends from,
//! the app they belong to, and what is known about the work they do.

use crate::purpose::Purpose;
use crate::text::{each, join, joined, same};
use vstd::prelude::*;

verus! {

/// One process.
#[derive(Debug, Clone)]
pub struct ProcInfo {
    pub pid: i32,
    pub name: Option<String>,
    /// The executable.
    pub path: Option<String>,
    /// The working directory.
    pub cwd: Option<String>,
    /// The arguments, the first of which is the name it was started under.
    pub args: Vec<String>,
}

impl ProcInfo {
    /// The arguments in one line.
    pub fn commandline(&self) -> (r: String)
        ensures
            r@ == joined(each(self.args@), " "@),
    {
        join(&self.args, " ")
    }
}

/// An application bundle.
#[derive(Debug, Clone)]
pub struct App {
    pub name: String,
    pub bundle_path: String,
}

/// What the repository says about the work in progress.
#[derive(Debug, Clone)]
pub struct GitContext {
    pub branch: Option<String>,
    /// The first line of the commit message.
    pub subject: Option<String>,
    /// The remote of the current branch.
    pub remote: Option<String>,
    /// The name of the remote that a push goes to.
    pub push_remote: Option<String>,
    /// The address of the remote that a push goes to.
    pub push_remote_url: Option<String>,
    /// The commits that a push sends, newest first.
    pub commits: Vec<String>,
    pub commit_count: Option<u32>,
    /// The summary of the changes that a push sends.
    pub stat: Option<String>,
    /// The remote-tracking ref that the commits were counted from.
    pub upstream: Option<String>,
}

/// What the surroundings of the caller say about its work.
#[derive(Debug, Clone)]
pub struct Context {
    pub git: Option<GitContext>,
    /// Environment variables, each under its name.
    pub env: Vec<(String, String)>,
    pub session_title: Option<String>,
}

/// The value that stands first under `name`.
pub open spec fn env_value(env: Seq<(String, String)>, name: Seq<char>) -> Option<Seq<char>>
    decreases env.len(),
{
    if env.len() == 0 {
        None
    } else if env[0].0@ == name {
        Some(env[0].1@)
    } else {
        env_value(env.skip(1), name)
    }
}

impl Context {
    /// The environment variable `name`.
    pub fn env_var(&self, name: &str) -> (r: Option<String>)
        ensures
            crate::text::opt(r) == env_value(self.env@, name@),
    {
        let mut i: usize = 0;
        assert(self.env@.skip(0) =~= self.env@);
        while i < self.env.len()
            invariant
                0 <= i <= self.env@.len(),
                env_value(self.env@.skip(i as int), name@) == env_value(self.env@, name@),
            decreases self.env@.len() - i,
        {
            if same(self.env[i].0.as_str(), name) {
                return Some(self.env[i].1.clone());
            }
            assert(self.env@.skip(i as int).skip(1) =~= self.env@.skip(i + 1));
            i = i + 1;
        }
        None
    }
}

/// Everything that is known about where a request comes from.
#[derive(Debug, Clone)]
pub struct Attribution {
    pub purpose: Purpose,
    /// The process at the other end of the connection.
    pub process: Option<ProcInfo>,
    /// That process and its ancestors, the nearest first.
    pub ancestry: Vec<ProcInfo>,
    pub app: Option<App>,
    pub context: Context,
}

// ---------------------------------------------------------------------------
// Laws
// ---------------------------------------------------------------------------

/// A variable has the value that stands first under its name, and none where
/// nothing stands under it.
pub proof fn first_value_counts(c: &Context, name: &str, r: Option<String>)
    requires
        call_ensures(Context::env_var, (c, name), r),
    ensures
        r is None ==> forall|i: int| 0 <= i < c.env@.len() ==> (#[trigger] c.env@[i]).0@ != name@,
        r is Some ==> exists|i: int|
            0 <= i < c.env@.len() && (#[trigger] c.env@[i]).0@ == name@ && c.env@[i].1@ == r->0@
                && forall|k: int| 0 <= k < i ==> (#[trigger] c.env@[k]).0@ != name@,
{
    lemma_env_value(c.env@, name@);
}

proof fn lemma_env_value(env: Seq<(String, String)>, name: Seq<char>)
    ensures
        env_value(env, name) is None ==> forall|i: int|
            0 <= i < env.len() ==> (#[trigger] env[i]).0@ != name,
        env_value(env, name) is Some ==> exists|i: int|
            0 <= i < env.len() && (#[trigger] env[i]).0@ == name && env[i].1@ == env_value(
                env,
                name,
            )->0 && forall|k: int| 0 <= k < i ==> (#[trigger] env[k]).0@ != name,
    decreases env.len(),
{
    if env.len() > 0 && env[0].0@ != name {
        let rest = env.skip(1);
        lemma_env_value(rest, name);
        if env_value(env, name) is None {
            assert forall|i: int| 0 <= i < env.len() implies (#[trigger] env[i]).0@ != name by {
                if i > 0 {
                    assert(rest[i - 1] == env[i]);
                }
            }
        } else {
            let i = choose|i: int|
                0 <= i < rest.len() && (#[trigger] rest[i]).0@ == name && rest[i].1@ == env_value(
                    rest,
                    name,
                )->0 && forall|k: int| 0 <= k < i ==> (#[trigger] rest[k]).0@ != name;
            assert(env[i + 1] == rest[i]);
            assert forall|k: int| 0 <= k < i + 1 implies (#[trigger] env[k]).0@ != name by {
                if k > 0 {
                    assert(rest[k - 1] == env[k]);
                }
            }
        }
    } else if env.len() > 0 {
        assert(env[0].0@ == name);
    }
}

/// A command line is the arguments with one space between each two.
pub proof fn command_line_is_the_arguments(p: &ProcInfo, glue: &str, r: String, q: String)
    requires
        call_ensures(ProcInfo::commandline, (p,), r),
        glue@ == seq![' '],
        call_ensures(join, (&p.args, glue), q),
    ensures
        r@ == q@,
{
    reveal_strlit(" ");
    assert(" "@ =~= seq![' ']);
}

} // verus!
