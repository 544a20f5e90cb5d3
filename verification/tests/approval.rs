use keyward::agent::approval::{reuse_covers, scope_of, Scope};
use keyward::attrib::{Attribution, Context, GitContext, ProcInfo};
use keyward::purpose::{Kind, Purpose};

const SECOND: u128 = 1_000_000_000;

fn scope(dir: &str, host: &str, repo: &str) -> Scope {
    Scope {
        directory: Some(dir.into()),
        host: Some(host.into()),
        repo: Some(repo.into()),
    }
}

fn purpose(kind: Kind) -> Purpose {
    Purpose {
        kind,
        host: None,
        repo: None,
        repo_path: None,
        remote_repo: None,
        remote_command: None,
        namespace: None,
    }
}

fn caller(purpose: Purpose) -> Attribution {
    Attribution {
        purpose,
        process: None,
        ancestry: vec![],
        app: None,
        context: Context {
            git: None,
            env: vec![],
            session_title: None,
        },
    }
}

fn git(remote: Option<&str>, push_url: Option<&str>) -> GitContext {
    GitContext {
        branch: None,
        subject: None,
        remote: remote.map(|s| s.to_string()),
        push_remote: None,
        push_remote_url: push_url.map(|s| s.to_string()),
        commits: vec![],
        commit_count: None,
        stat: None,
        upstream: None,
    }
}

#[test]
fn a_fresh_approval_covers_the_same_place() {
    let s = scope("/src/keyward", "github.com", "git@github.com:me/keyward.git");
    let now = 1_000_000 * SECOND;
    let last = (s.clone(), now - 30 * SECOND);
    assert!(reuse_covers(Some(&last), &s, 300 * SECOND, now));
}

#[test]
fn another_directory_host_or_remote_does_not_inherit_it() {
    let approved = scope("/src/keyward", "github.com", "git@github.com:me/keyward.git");
    let now = 1_000_000 * SECOND;
    let last = (approved.clone(), now);
    for other in [
        scope("/src/other", "github.com", "git@github.com:me/keyward.git"),
        scope("/src/keyward", "gitlab.com", "git@github.com:me/keyward.git"),
        scope("/src/keyward", "github.com", "git@github.com:me/secrets.git"),
    ] {
        assert!(
            !reuse_covers(Some(&last), &other, 300 * SECOND, now),
            "{other:?} must not ride an approval granted for {approved:?}"
        );
    }
}

#[test]
fn the_window_expires_and_zero_disables_it() {
    let s = scope("/src/keyward", "github.com", "git@github.com:me/keyward.git");
    let now = 1_000_000 * SECOND;
    let stale = (s.clone(), now - 301 * SECOND);
    assert!(!reuse_covers(Some(&stale), &s, 300 * SECOND, now), "past the window");
    let fresh = (s.clone(), now);
    assert!(!reuse_covers(Some(&fresh), &s, 0, now), "0 asks every time");
    assert!(!reuse_covers(None, &s, 300 * SECOND, now), "nothing approved yet");
}

/// A push and the fetch that follows it in the same checkout are one approval:
/// the purpose kind is deliberately outside the scope.
#[test]
fn a_different_purpose_in_the_same_place_still_rides_it() {
    let push = scope("/src/keyward", "github.com", "git@github.com:me/keyward.git");
    let fetch = push.clone();
    let now = 1_000_000 * SECOND;
    let last = (push, now - 5 * SECOND);
    assert!(reuse_covers(Some(&last), &fetch, 300 * SECOND, now));
}

#[test]
fn the_last_moment_of_the_window_is_outside_it() {
    let s = scope("/src", "h", "r");
    let now = 1_000 * SECOND;
    let last = (s.clone(), now - 300 * SECOND);
    assert!(!reuse_covers(Some(&last), &s, 300 * SECOND, now));
    assert!(reuse_covers(Some(&last), &s, 300 * SECOND + 1, now));
}

#[test]
fn an_approval_from_the_future_counts_as_granted_now() {
    let s = scope("/src", "h", "r");
    let last = (s.clone(), 500);
    assert!(reuse_covers(Some(&last), &s, 1, 400));
}

#[test]
fn an_absent_place_is_not_the_same_as_an_empty_one() {
    let none = Scope::default();
    let empty = Scope {
        directory: Some(String::new()),
        host: None,
        repo: None,
    };
    assert!(none.same(&none.clone()));
    assert!(!none.same(&empty));
    assert!(!empty.same(&none));
}

#[test]
fn scope_prefers_the_repository_to_the_working_directory() {
    let mut who = caller(purpose(Kind::GitPush));
    who.process = Some(ProcInfo {
        pid: 7,
        name: None,
        path: None,
        cwd: Some("/home/me".into()),
        args: vec![],
    });
    assert_eq!(scope_of(&who).directory.as_deref(), Some("/home/me"));
    who.purpose.repo_path = Some("/src/keyward".into());
    assert_eq!(scope_of(&who).directory.as_deref(), Some("/src/keyward"));
}

#[test]
fn scope_prefers_the_push_address_to_the_remote() {
    let mut who = caller(purpose(Kind::GitPush));
    assert_eq!(scope_of(&who), Scope::default());
    who.context.git = Some(git(Some("origin"), None));
    assert_eq!(scope_of(&who).repo.as_deref(), Some("origin"));
    who.context.git = Some(git(Some("origin"), Some("git@github.com:me/x.git")));
    assert_eq!(scope_of(&who).repo.as_deref(), Some("git@github.com:me/x.git"));
}

#[test]
fn the_kind_is_no_part_of_the_scope() {
    let mut push = purpose(Kind::GitPush);
    push.host = Some("github.com".into());
    let mut fetch = push.clone();
    fetch.kind = Kind::GitFetch;
    assert_eq!(scope_of(&caller(push)), scope_of(&caller(fetch)));
}
