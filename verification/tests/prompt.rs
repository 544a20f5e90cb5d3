use keyward::agent::prompt::{prompt_action, sanitise, sheet_reason, short_repo, PROMPT_MAX};
use keyward::attrib::{App, Attribution, Context};
use keyward::purpose::{shorten, Kind, Purpose};

fn caller(kind: Kind) -> Attribution {
    Attribution {
        purpose: Purpose {
            kind,
            host: None,
            repo: None,
            repo_path: None,
            remote_repo: None,
            remote_command: None,
            namespace: None,
        },
        process: None,
        ancestry: vec![],
        app: None,
        context: Context {
            git: None,
            env: vec![],
            session_title: None,
        },
    }
}

fn app(name: &str) -> Option<App> {
    Some(App {
        name: name.into(),
        bundle_path: "/Applications/X.app".into(),
    })
}

#[test]
fn words_are_kept_and_noise_is_dropped() {
    assert_eq!(sanitise("  a\t`b`  \"c d\"\n'e' "), "a b c d e");
    assert_eq!(sanitise("plain text"), "plain text");
    assert_eq!(sanitise(" \n'\"` "), "");
    assert_eq!(sanitise(""), "");
    assert_eq!(sanitise("it's"), "it s");
    assert_eq!(sanitise("a\u{2003}b\u{85}c"), "a b c");
    assert_eq!(sanitise("zero\u{200b}width"), "zero\u{200b}width");
}

#[test]
fn cleaning_twice_is_cleaning_once() {
    for s in ["  a\t`b`  ", "x", "", "don't  `do`\r\nit"] {
        assert_eq!(sanitise(&sanitise(s)), sanitise(s));
    }
}

#[test]
fn white_space_is_what_unicode_says() {
    for n in 0..0x11_0000u32 {
        if let Some(c) = char::from_u32(n) {
            assert_eq!(keyward::text::is_white(c), c.is_whitespace(), "{n:x}");
        }
    }
}

#[test]
fn short_texts_stay_and_long_ones_end_in_an_ellipsis() {
    assert_eq!(shorten("abc", 3), "abc");
    assert_eq!(shorten("abcd", 3), "ab…");
    assert_eq!(shorten("abcd", 1), "…");
    assert_eq!(shorten("abcd", 0), "");
    assert_eq!(shorten("äöüß", 4), "äöüß");
}

#[test]
fn repositories_lose_their_suffix_and_long_ones_their_owner() {
    assert_eq!(short_repo("owner/repo.git"), "owner/repo");
    assert_eq!(short_repo("owner/repo"), "owner/repo");
    assert_eq!(short_repo("repo.git.git"), "repo");
    assert_eq!(short_repo(".git"), "");
    assert_eq!(short_repo("a-quite-long-owner-name/the-repository.git"), "the-repository");
    assert_eq!(short_repo("abcdefghijklmnopqrstuvwxyz01"), "abcdefghijklmnopqrstuvwxyz01");
    assert_eq!(short_repo("abcdefghijklmnopqrstuvwxyz012"), "abcdefghijklmnopqrstuvwxyz012");
    assert_eq!(short_repo("abcdefghijklmnopqrstuvwxyz012/"), "");
}

#[test]
fn every_kind_has_its_words() {
    let mut who = caller(Kind::CommitSigning);
    assert_eq!(prompt_action(&who), "Sign a git commit");
    who.purpose.repo = Some("nixos-config".into());
    assert_eq!(prompt_action(&who), "Sign a commit in nixos-config");

    let mut who = caller(Kind::GitPush);
    assert_eq!(prompt_action(&who), "git push to unknown host");
    who.purpose.host = Some("github.com".into());
    assert_eq!(prompt_action(&who), "git push to github.com");
    who.purpose.remote_repo = Some("owner/repo.git".into());
    assert_eq!(prompt_action(&who), "git push to owner/repo");
    who.purpose.kind = Kind::GitFetch;
    assert_eq!(prompt_action(&who), "git fetch from owner/repo");
    who.purpose.remote_repo = None;
    assert_eq!(prompt_action(&who), "git fetch from github.com");
    who.purpose.kind = Kind::GitOverSsh;
    assert_eq!(prompt_action(&who), "git on github.com");
    who.purpose.kind = Kind::SshLogin;
    assert_eq!(prompt_action(&who), "SSH to github.com");
    who.purpose.kind = Kind::RemoteCommand;
    assert_eq!(prompt_action(&who), "Run a command on github.com");
    who.purpose.kind = Kind::FileTransfer;
    assert_eq!(prompt_action(&who), "Copy files with github.com");

    let mut who = caller(Kind::Signing);
    assert_eq!(prompt_action(&who), "Sign data");
    who.purpose.namespace = Some("file".into());
    assert_eq!(prompt_action(&who), "Sign data (file)");
    assert_eq!(prompt_action(&caller(Kind::Unknown)), "Authorise a signature");
}

#[test]
fn the_command_never_shows() {
    let mut who = caller(Kind::RemoteCommand);
    who.purpose.host = Some("h".into());
    let before = sheet_reason(&who, "");
    who.purpose.remote_command = Some("rm -rf /".into());
    assert_eq!(sheet_reason(&who, ""), before);
    assert_eq!(before, "Run a command on h");
}

#[test]
fn long_actions_are_cut() {
    let mut who = caller(Kind::SshLogin);
    who.purpose.host = Some("h".repeat(100));
    let p = prompt_action(&who);
    assert_eq!(p.chars().count(), PROMPT_MAX);
    assert_eq!(p, format!("SSH to {}…", "h".repeat(48)));
}

#[test]
fn the_sheet_names_the_app_where_it_fits() {
    let mut who = caller(Kind::SshLogin);
    who.purpose.host = Some("root@server.example".into());
    assert_eq!(sheet_reason(&who, ""), "SSH to root@server.example");
    who.app = app("Ghostty");
    assert_eq!(sheet_reason(&who, ""), "SSH to root@server.example · Ghostty");
    let mut who = caller(Kind::CommitSigning);
    who.purpose.repo = Some("nixos-config".into());
    who.app = app("Terminal");
    assert_eq!(sheet_reason(&who, ""), "Sign a commit in nixos-config · Terminal");
    let mut who = caller(Kind::GitPush);
    who.purpose.remote_repo = Some("owner/repo".into());
    who.app = app("Ghostty");
    assert_eq!(sheet_reason(&who, ""), "git push to owner/repo · Ghostty");
}

#[test]
fn the_app_goes_where_it_would_be_too_long() {
    let mut who = caller(Kind::SshLogin);
    who.purpose.host = Some("h".repeat(42));
    who.app = app("abcd");
    assert_eq!(sheet_reason(&who, "").chars().count(), 56);
    who.app = app("abcde");
    assert_eq!(sheet_reason(&who, "").chars().count(), 49);
}

#[test]
fn a_configured_sheet_wins_and_a_space_says_nothing() {
    let mut who = caller(Kind::SshLogin);
    who.app = app("Ghostty");
    assert_eq!(sheet_reason(&who, "use `the` key"), "use the key");
    assert_eq!(sheet_reason(&who, " "), "");
    assert_eq!(sheet_reason(&who, &"x".repeat(60)).chars().count(), 56);
}
