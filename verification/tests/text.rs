use keyward::attrib::{Context, ProcInfo};
use keyward::text::{
    after_last, contains, ends_with, join, number, same, signed_number, starts_with, trim,
    trim_end_matches,
};

#[test]
fn searching_agrees_with_the_standard_library() {
    let texts = ["", "a", "ab", "aab", "abab", "ba", "ünï", "nïü"];
    for s in texts {
        for t in texts {
            assert_eq!(contains(s, t), s.contains(t), "{s} {t}");
            assert_eq!(starts_with(s, t), s.starts_with(t), "{s} {t}");
            assert_eq!(ends_with(s, t), s.ends_with(t), "{s} {t}");
            assert_eq!(same(s, t), s == t);
            if !t.is_empty() {
                assert_eq!(trim_end_matches(s, t), s.trim_end_matches(t), "{s} {t}");
            }
        }
        assert_eq!(after_last(s, 'a'), s.rsplit('a').next().unwrap());
    }
}

#[test]
fn trimming_agrees_with_the_standard_library() {
    for s in ["", " ", "a", " a b\t", "\u{2028}x\u{a0}", "\u{200b}y "] {
        assert_eq!(trim(s), s.trim());
    }
}

#[test]
fn numbers_agree_with_the_standard_library() {
    for n in [0u128, 9, 10, 99, 100, 12345678901234567890, u128::MAX] {
        assert_eq!(number(n), n.to_string());
    }
    for n in [0i64, -1, 1, -25299, i64::MIN, i64::MAX] {
        assert_eq!(signed_number(n), n.to_string());
    }
}

#[test]
fn joining_puts_glue_between() {
    let v = |t: &[&str]| t.iter().map(|s| s.to_string()).collect::<Vec<_>>();
    assert_eq!(join(&v(&[]), ", "), "");
    assert_eq!(join(&v(&["a"]), ", "), "a");
    assert_eq!(join(&v(&["a", "", "b"]), ", "), "a, , b");
    let p = ProcInfo {
        pid: 1,
        name: None,
        path: None,
        cwd: None,
        args: v(&["ssh", "host", "ls"]),
    };
    assert_eq!(p.commandline(), "ssh host ls");
}

#[test]
fn the_first_value_under_a_name_counts() {
    let c = Context {
        git: None,
        env: vec![
            ("A".into(), "1".into()),
            ("B".into(), "2".into()),
            ("A".into(), "3".into()),
        ],
        session_title: None,
    };
    assert_eq!(c.env_var("A").as_deref(), Some("1"));
    assert_eq!(c.env_var("B").as_deref(), Some("2"));
    assert_eq!(c.env_var("C"), None);
}
