use keyward::agent::Upstream;
use keyward::config::{
    comment_for, config_path, default_enclave_comment, default_max_log, default_timeout,
    load_config, ConfigFile,
};

fn blank() -> ConfigFile {
    ConfigFile {
        listen: None,
        log: None,
        upstreams: None,
        timeout_secs: None,
        max_log_bytes: None,
        log_list_identities: None,
        touch_id_reuse: None,
        sheet_reason: None,
        enclave_key: None,
        enclave_comment: None,
    }
}

fn pairs(v: &[Upstream]) -> Vec<(&str, &str)> {
    v.iter().map(|u| (&u.name[..], &u.path[..])).collect()
}

#[test]
fn every_field_has_its_default() {
    for file in [None, Some(blank())] {
        let c = load_config(file, "/Users/me", "mac@keyward".into());
        assert_eq!(c.listen, "/Users/me/.ssh/keyward.sock");
        assert_eq!(c.log, "/Users/me/Library/Application Support/Keyward/events.jsonl");
        assert_eq!(
            pairs(&c.upstreams),
            vec![
                (
                    "Secretive",
                    "/Users/me/Library/Containers/com.maxgoedjen.Secretive.SecretAgent/Data/socket.ssh"
                ),
                ("gpg-agent", "/Users/me/.gnupg/S.gpg-agent.ssh"),
            ]
        );
        assert_eq!(c.timeout_secs, 10);
        assert_eq!(c.max_log_bytes, 33554432);
        assert!(!c.log_list_identities);
        assert_eq!(c.touch_id_reuse, 0);
        assert_eq!(c.sheet_reason, "");
        assert_eq!(c.enclave_key, None);
        assert_eq!(c.enclave_comment, "mac@keyward");
    }
    assert_eq!(default_timeout(), 10);
    assert_eq!(default_max_log(), 33554432);
}

#[test]
fn what_the_file_says_goes_and_tildes_are_expanded() {
    let file = ConfigFile {
        listen: Some("~/k.sock".into()),
        log: Some("/var/log/k".into()),
        upstreams: Some(vec![
            Upstream {
                name: "one".into(),
                path: "~/one".into(),
            },
            Upstream {
                name: "two".into(),
                path: "/two~/".into(),
            },
        ]),
        timeout_secs: Some(3),
        max_log_bytes: Some(4),
        log_list_identities: Some(true),
        touch_id_reuse: Some(5),
        sheet_reason: Some(" ".into()),
        enclave_key: Some("~/key".into()),
        enclave_comment: Some("me".into()),
    };
    let c = load_config(Some(file), "/Users/me", "unused".into());
    assert_eq!(c.listen, "/Users/me/k.sock");
    assert_eq!(c.log, "/var/log/k");
    assert_eq!(pairs(&c.upstreams), vec![("one", "/Users/me/one"), ("two", "/two~/")]);
    assert_eq!((c.timeout_secs, c.max_log_bytes), (3, 4));
    assert!(c.log_list_identities);
    assert_eq!(c.touch_id_reuse, 5);
    assert_eq!(c.sheet_reason, " ");
    assert_eq!(c.enclave_key.as_deref(), Some("/Users/me/key"));
    assert_eq!(c.enclave_comment, "me");
}

#[test]
fn a_file_may_leave_fields_out() {
    let mut file = blank();
    file.upstreams = Some(vec![]);
    file.enclave_key = Some("keychain".into());
    let c = load_config(Some(file), "/h", "c".into());
    assert!(c.upstreams.is_empty());
    assert_eq!(c.enclave_key.as_deref(), Some("keychain"));
    assert_eq!(c.listen, "/h/.ssh/keyward.sock");
}

#[test]
fn the_comment_names_the_machine() {
    assert_eq!(default_enclave_comment(Some(" Daniels-MacBook \n")), "daniels-macbook@keyward");
    assert_eq!(default_enclave_comment(Some("ÄÖ")), "äö@keyward");
    assert_eq!(default_enclave_comment(Some(" \n")), "mac@keyward");
    assert_eq!(default_enclave_comment(None), "mac@keyward");
    assert_eq!(comment_for(Some("host".into())), "host@keyward");
    assert_eq!(comment_for(Some(String::new())), "mac@keyward");
    assert_eq!(comment_for(None), "mac@keyward");
}

#[test]
fn the_file_lies_below_the_home_directory() {
    assert_eq!(config_path(None, "/h"), "/h/.config/keyward/config.json");
    assert_eq!(config_path(Some("x.json".into()), "/h"), "x.json");
}
