use keyward::agent::session::{
    admits, farewell, health, health_request, read_health, serve, Lost, Probe, ServeAction,
    ServeEvent, MAX_CONNS, MAX_MSG,
};
use keyward::wire::frame;

fn header(n: u32) -> ServeAction {
    serve(ServeEvent::Header(n.to_be_bytes()))
}

#[test]
fn messages_of_a_sane_length_are_read() {
    assert_eq!(MAX_MSG, 1 << 20);
    assert!(matches!(header(1), ServeAction::Read(1)));
    assert!(matches!(header(MAX_MSG), ServeAction::Read(1_048_576)));
    assert!(matches!(header(0), ServeAction::Close));
    assert!(matches!(header(MAX_MSG + 1), ServeAction::Close));
    assert!(matches!(header(u32::MAX), ServeAction::Close));
}

#[test]
fn a_frame_announces_its_message() {
    let f = frame(&[13, 1, 2]);
    let h = [f[0], f[1], f[2], f[3]];
    assert!(matches!(serve(ServeEvent::Header(h)), ServeAction::Read(3)));
}

#[test]
fn messages_go_by_their_first_byte() {
    let p = |b: &[u8]| serve(ServeEvent::Payload(b.to_vec()));
    assert!(matches!(p(&[11]), ServeAction::ListIdentities));
    match p(&[13, 7]) {
        ServeAction::Sign(m) => assert_eq!(m, vec![13, 7]),
        _ => panic!("not signed"),
    }
    match p(&[27, 7]) {
        ServeAction::Extend(m) => assert_eq!(m, vec![27, 7]),
        _ => panic!("not extended"),
    }
}

#[test]
fn anything_else_is_answered_with_a_failure() {
    for k in [0u8, 1, 5, 12, 14, 17, 18, 25, 26, 28, 255] {
        match serve(ServeEvent::Payload(vec![k, 1, 2])) {
            ServeAction::Send(b) => assert_eq!(b, vec![0, 0, 0, 1, 5]),
            _ => panic!("{k} not refused"),
        }
    }
}

#[test]
fn answers_are_framed() {
    match serve(ServeEvent::Answer(vec![12, 0])) {
        ServeAction::Send(b) => assert_eq!(b, vec![0, 0, 0, 2, 12, 0]),
        _ => panic!("not sent"),
    }
}

#[test]
fn connections_are_capped() {
    assert_eq!(MAX_CONNS, 512);
    assert!(admits(0));
    assert!(admits(511));
    assert!(!admits(512));
    assert!(!admits(usize::MAX));
}

#[test]
fn the_probe_asks_for_identities() {
    assert_eq!(health_request(), vec![0, 0, 0, 1, 11]);
}

#[test]
fn only_a_list_of_keys_is_healthy() {
    assert_eq!(read_health(&[12, 0, 0, 1, 2, 9]), Some(258));
    assert_eq!(read_health(&[12, 0, 0, 1]), None);
    assert_eq!(read_health(&[5, 0, 0, 0, 0]), None);
    assert_eq!(read_health(&[]), None);
}

#[test]
fn the_verdict_says_what_happened() {
    let v = |p: Probe| {
        let v = health("/k.sock", p);
        (v.code, v.message)
    };
    let s = |t: &str| Some(t.to_string());
    assert_eq!(
        v(Probe::Unreachable("refused".into())),
        (1, s("unhealthy: cannot connect to /k.sock: refused"))
    );
    assert_eq!(v(Probe::Unbounded), (1, None));
    assert_eq!(v(Probe::Unsent), (1, s("unhealthy: write failed")));
    assert_eq!(
        v(Probe::Silent("10s".into(), "timed out".into())),
        (1, s("unhealthy: no answer within 10s: timed out"))
    );
    assert_eq!(v(Probe::Truncated), (1, s("unhealthy: truncated answer")));
    assert_eq!(v(Probe::Answered(vec![5])), (1, s("unhealthy: unexpected reply")));
    assert_eq!(
        v(Probe::Answered(vec![12, 0, 0, 0, 3])),
        (0, s("healthy: 3 keys"))
    );
}

#[test]
fn the_end_of_the_stream_ends_the_connection() {
    let ended = || Lost::Ended("eof".into());
    let failed = || Lost::Failed("broken pipe".into());
    assert!(matches!(serve(ServeEvent::NoHeader(ended())), ServeAction::Close));
    assert!(matches!(
        serve(ServeEvent::NoHeader(failed())),
        ServeAction::Abort(Lost::Failed(_))
    ));
    assert!(matches!(
        serve(ServeEvent::NoPayload(ended())),
        ServeAction::Abort(Lost::Ended(_))
    ));
    assert!(matches!(
        serve(ServeEvent::NoPayload(failed())),
        ServeAction::Abort(Lost::Failed(_))
    ));
    assert!(matches!(
        serve(ServeEvent::NotSent(failed())),
        ServeAction::Abort(Lost::Failed(_))
    ));
    assert_eq!(farewell(ended()), None);
    assert_eq!(
        farewell(failed()).as_deref(),
        Some("keywardd: connection ended: broken pipe")
    );
}
