use keyward::attrib::{App, Attribution, Context, GitContext, ProcInfo};
use keyward::purpose::{Kind, Purpose};
use keyward::ui::{
    card_command, raw_command, reads_stdin, script_owner, script_readable, show, stdin_script,
    SCRIPT_MAX,
};

fn caller() -> Attribution {
    Attribution {
        purpose: Purpose {
            kind: Kind::RemoteCommand,
            host: Some("root@server".into()),
            repo: Some("keyward".into()),
            repo_path: Some("/Users/me/src/keyward".into()),
            remote_repo: None,
            remote_command: None,
            namespace: None,
        },
        process: Some(ProcInfo {
            pid: 42,
            name: Some("ssh".into()),
            path: Some("/usr/bin/ssh".into()),
            cwd: Some("/tmp".into()),
            args: vec!["ssh".into(), "server".into(), "uptime".into()],
        }),
        ancestry: vec![],
        app: Some(App {
            name: "Ghostty".into(),
            bundle_path: "/Applications/Ghostty.app".into(),
        }),
        context: Context {
            git: None,
            env: vec![
                ("OTHER".into(), "x".into()),
                ("CLAUDE_CODE_HOST_SESSION_ID".into(), "id-1".into()),
            ],
            session_title: None,
        },
    }
}

fn push() -> GitContext {
    GitContext {
        branch: Some("main".into()),
        subject: Some("Fix it".into()),
        remote: Some("origin".into()),
        push_remote: Some("origin".into()),
        push_remote_url: Some("git@github.com:me/keyward.git".into()),
        commits: vec!["b two".into(), "a one".into()],
        commit_count: Some(2),
        stat: Some("1 file changed".into()),
        upstream: Some("origin/main".into()),
    }
}

#[test]
fn shells_that_read_their_work_are_known() {
    for c in ["bash -s", "sh -s", "zsh -s", "bash", "sh", "zsh", "bash -", "sh -", "cat"] {
        assert!(reads_stdin(c), "{c}");
    }
    assert!(reads_stdin(" \tbash -s\n"));
    assert!(reads_stdin("\u{a0}cat\u{3000}"));
    for c in ["", "bash -c ls", "zsh -", "catt", "Bash", "bash  -s"] {
        assert!(!reads_stdin(c), "{c}");
    }
}

#[test]
fn the_command_on_the_host_comes_before_the_callers_own() {
    let mut who = caller();
    assert_eq!(raw_command(&who).as_deref(), Some("ssh server uptime"));
    who.purpose.remote_command = Some("uptime".into());
    assert_eq!(raw_command(&who).as_deref(), Some("uptime"));
    who.purpose.remote_command = None;
    who.process = None;
    assert_eq!(raw_command(&who), None);
}

#[test]
fn only_a_shell_that_reads_its_work_has_its_input_looked_at() {
    let mut who = caller();
    assert_eq!(script_owner(&who), None);
    who.purpose.remote_command = Some("bash -s".into());
    assert_eq!(script_owner(&who), Some(42));
    who.process = None;
    assert_eq!(script_owner(&who), None);
}

#[test]
fn scripts_are_read_from_small_files_only() {
    assert!(script_readable(true, 1));
    assert!(script_readable(true, SCRIPT_MAX));
    assert_eq!(SCRIPT_MAX, 64 * 1024);
    assert!(!script_readable(true, 0));
    assert!(!script_readable(true, SCRIPT_MAX + 1));
    assert!(!script_readable(false, 10));
}

#[test]
fn a_blank_script_is_none() {
    assert_eq!(stdin_script(" \n\t"), None);
    assert_eq!(stdin_script(""), None);
    assert_eq!(stdin_script("\n echo hi \n").as_deref(), Some("echo hi"));
}

#[test]
fn a_script_stands_for_the_shell_and_a_pipe_is_admitted() {
    let s = |t: &str| Some(t.to_string());
    assert_eq!(card_command(s("bash -s"), s("echo hi")), (s("echo hi"), true));
    assert_eq!(
        card_command(s("bash -s"), None),
        (s("bash -s   (script piped on stdin — not readable)"), false)
    );
    assert_eq!(card_command(s("uptime"), s("ignored")), (s("uptime"), false));
    assert_eq!(card_command(None, s("ignored")), (None, false));
}

#[test]
fn the_card_carries_what_is_known() {
    let mut who = caller();
    who.context.git = Some(push());
    let c = show(&who, "git push to me/keyward", Some("mac@keyward"), Some("SHA256:x"), None, Some("/Users/me"), None);
    assert_eq!(c.headline, "git push to me/keyward");
    assert_eq!(c.app.as_deref(), Some("Ghostty"));
    assert_eq!(c.app_bundle.as_deref(), Some("/Applications/Ghostty.app"));
    assert_eq!(c.process.as_deref(), Some("ssh"));
    assert_eq!(c.key.as_deref(), Some("mac@keyward"));
    assert_eq!(c.fingerprint.as_deref(), Some("SHA256:x"));
    assert_eq!(c.host.as_deref(), Some("root@server"));
    assert_eq!(c.repo.as_deref(), Some("keyward"));
    assert_eq!(c.branch.as_deref(), Some("main"));
    assert_eq!(c.subject.as_deref(), Some("Fix it"));
    assert_eq!(c.command.as_deref(), Some("ssh server uptime"));
    assert!(!c.script);
    assert_eq!(c.directory.as_deref(), Some("~/src/keyward"));
    assert_eq!(c.remote.as_deref(), Some("origin = git@github.com:me/keyward.git"));
    assert_eq!(c.commits, vec!["b two", "a one"]);
    assert_eq!(c.commit_count, Some(2));
    assert_eq!(c.stat.as_deref(), Some("1 file changed"));
    assert_eq!(c.upstream.as_deref(), Some("origin/main"));
    assert_eq!(c.session.as_deref(), Some("id-1"));
}

#[test]
fn the_card_leaves_out_what_is_not_known() {
    let mut who = caller();
    who.app = None;
    who.process = None;
    who.purpose.repo_path = None;
    who.context.env = vec![];
    let c = show(&who, "x", None, None, None, None, None);
    assert_eq!((c.app, c.app_bundle, c.process), (None, None, None));
    assert_eq!((c.key, c.fingerprint, c.command), (None, None, None));
    assert_eq!((c.directory, c.remote, c.session), (None, None, None));
    assert!(c.commits.is_empty() && c.commit_count.is_none());
}

#[test]
fn a_remote_without_an_address_goes_by_its_name() {
    let mut who = caller();
    let mut g = push();
    g.push_remote_url = None;
    who.context.git = Some(g);
    who.context.session_title = Some("Release".into());
    let c = show(&who, "x", None, None, None, Some("/home/other"), None);
    assert_eq!(c.remote.as_deref(), Some("origin"));
    assert_eq!(c.session.as_deref(), Some("Release"));
    assert_eq!(c.directory.as_deref(), Some("/Users/me/src/keyward"));
    let mut g = push();
    g.push_remote = None;
    who.context.git = Some(g);
    assert_eq!(show(&who, "x", None, None, None, None, None).remote, None);
}
