use keyward::attrib::ProcInfo;
use keyward::ui::{chain, display_name};

fn proc(name: &str, path: &str, args: &[&str]) -> ProcInfo {
    ProcInfo {
        pid: 1,
        name: Some(name.into()),
        path: Some(path.into()),
        cwd: None,
        args: args.iter().map(|a| a.to_string()).collect(),
    }
}

#[test]
fn frizz_server_is_named_by_its_entry_point() {
    let p = proc(
        "node",
        "/Users/someone/.local/share/nvm/v24.0.0/bin/node",
        &["node", "/Users/someone/.frizz/server-releases/a1b2c3/server.mjs"],
    );
    assert_eq!(display_name(&p, None).as_deref(), Some("frizz server"));
}

#[test]
fn an_agent_mentioning_the_server_is_still_the_agent() {
    let p = proc(
        "aide",
        "/Users/someone/.frizz/runtimes/aide/2.1.277/aide",
        &[
            "aide",
            "--mcp-config",
            "{\"frizz\":{\"command\":\"node\",\"args\":[\"/Users/someone/.frizz/server-releases/a1b2c3/mcp.mjs\"]}}",
        ],
    );
    assert_eq!(display_name(&p, Some("aide")).as_deref(), Some("aide"));
    let q = proc("2.1.277", "/Users/someone/.frizz/server-releases/aide", &["aide"]);
    assert_eq!(display_name(&q, Some("aide")).as_deref(), Some("aide"));
    assert_eq!(display_name(&q, None).as_deref(), Some("frizz server"));
}

#[test]
fn ordinary_processes_keep_their_own_name() {
    assert_eq!(display_name(&proc("zsh", "/bin/zsh", &["-zsh"]), None).as_deref(), Some("zsh"));
}

#[test]
fn a_later_argument_does_not_decide() {
    let name = |n: &str, args: &[&str], agent: Option<&str>| {
        display_name(&proc(n, "/usr/bin/node", args), agent).unwrap()
    };
    let later = &["node", "app.js", "/opt/aide-code/cli.js"];
    let entry = &["node", "/opt/aide-code/cli.js"];
    assert_eq!(name("node", later, Some("aide")), "node");
    assert_eq!(name("node", entry, Some("aide")), "aide");
    assert_eq!(name("node", &["node", "/opt/aide/x.js"], Some("aide")), "aide");
    assert_eq!(name("node", &["node", "aide-code"], Some("aide")), "aide");
    assert_eq!(name("node", &["node", "aide"], Some("aide")), "node");
    assert_eq!(name("python", entry, Some("aide")), "python");
    assert_eq!(name("node", entry, Some("other")), "node");
    assert_eq!(name("node", entry, None), "node");
}

#[test]
fn a_process_without_a_name_has_none_to_show() {
    let mut p = proc("x", "/opt/aide", &[]);
    p.name = None;
    assert_eq!(display_name(&p, Some("aide")), None);
}

#[test]
fn the_chain_runs_from_the_farthest_and_skips_the_nameless() {
    let mut nameless = proc("x", "/x", &[]);
    nameless.name = None;
    let ancestry = vec![
        proc("ssh", "/usr/bin/ssh", &["ssh"]),
        nameless,
        proc("zsh", "/bin/zsh", &["-zsh"]),
        proc("ghostty", "/Applications/Ghostty.app/Contents/MacOS/ghostty", &[]),
    ];
    assert_eq!(chain(&ancestry, None), vec!["ghostty", "zsh", "ssh"]);
    assert!(chain(&vec![], None).is_empty());
}
