use keyward::event::{Log, LogAction, LogEvent};

fn log() -> Log {
    Log::new("/l".into(), 100)
}

#[test]
fn a_line_is_written_to_the_open_file() {
    let l = log();
    assert_eq!((&l.path[..], l.max_bytes), ("/l", 100));
    match l.append(LogEvent::Serialised(Some("{}".into()), true)) {
        LogAction::Write(t) => assert_eq!(t, "{}\n"),
        _ => panic!("not written"),
    }
}

#[test]
fn the_file_is_opened_on_demand() {
    match log().append(LogEvent::Serialised(Some("{}".into()), false)) {
        LogAction::Open(t) => assert_eq!(t, "{}\n"),
        _ => panic!("not opened"),
    }
    match log().append(LogEvent::Opened("{}\n".into(), true)) {
        LogAction::Write(t) => assert_eq!(t, "{}\n"),
        _ => panic!("not written"),
    }
}

#[test]
fn what_cannot_be_written_is_dropped() {
    assert!(matches!(log().append(LogEvent::Serialised(None, true)), LogAction::Finish));
    assert!(matches!(log().append(LogEvent::Opened("x".into(), false)), LogAction::Finish));
}

#[test]
fn a_long_file_is_set_aside() {
    assert!(matches!(log().append(LogEvent::Written(Some(100))), LogAction::Finish));
    match log().append(LogEvent::Written(Some(101))) {
        LogAction::Rotate(aside) => assert_eq!(aside, "/l.jsonl.1"),
        _ => panic!("not set aside"),
    }
    assert!(matches!(log().append(LogEvent::Written(None)), LogAction::Finish));
}

#[test]
fn the_name_set_aside_has_its_own_extension() {
    let aside = |p: &str| Log::new(p.into(), 1).rotated_path();
    assert_eq!(aside("/d/events.jsonl"), "/d/events.jsonl.1");
    assert_eq!(aside("/d/events.log"), "/d/events.jsonl.1");
    assert_eq!(aside("/d.e/events"), "/d.e/events.jsonl.1");
    for p in [
        "", "/", ".", "..", "./", "a/..", "/.", "a", "a.", ".a", "..a", "...", "a.b.c", "/x/.y",
        "/x/.y.z", "a/b.c/", "a/b.c//", "a/b.c/.", "a/b.c/./", "a/b./.", "a.b/c", "/a/./", "ä.ö",
        "a/../b.c", "a.jsonl.1",
    ] {
        let mut expected = std::path::PathBuf::from(p);
        expected.set_extension("jsonl.1");
        assert_eq!(aside(p), expected.to_str().unwrap(), "{p}");
    }
}

#[test]
fn no_file_is_set_aside_under_its_own_name() {
    for p in ["a", "a.jsonl", "a.jsonl.1", "/d/.jsonl.1", "x.1"] {
        assert_ne!(Log::new(p.into(), 1).rotated_path(), p);
    }
}
