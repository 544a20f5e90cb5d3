use keyward::agent::approval::{Approval, Scope};
use keyward::agent::extension::{handle_extension, Connection};
use keyward::agent::identities::{refresh_identities, Identity, Routes};
use keyward::agent::sign::{
    authorise, finish_forwarded, finish_own, forwarded, handle_sign, route_sign, Forwarded,
    OwnRequest, RouteStep, SignStep, Trouble,
};
use keyward::agent::{Ctx, Upstream, EXTENSION, SIGN_REQUEST};
use keyward::attrib::{App, Attribution, Context, ProcInfo};
use keyward::crypto::fingerprint;
use keyward::enclave::Enclave;
use keyward::event::{Kind, Stamp};
use keyward::purpose::{Kind as PurposeKind, Purpose};
use keyward::wire::Writer;

const STAMP: Stamp = Stamp {
    ts_nanos: 5,
    duration_ms: 6,
};

fn key() -> Enclave {
    Enclave::load(vec![1], vec![4, 5, 6], 3, "mac@keyward".into()).unwrap()
}

fn upstreams() -> Vec<Upstream> {
    vec![
        Upstream {
            name: "Secretive".into(),
            path: "/s".into(),
        },
        Upstream {
            name: "gpg-agent".into(),
            path: "/g".into(),
        },
    ]
}

fn ctx(own: bool) -> Ctx {
    Ctx {
        enclave: if own { Some(key()) } else { None },
        upstreams: upstreams(),
        timeout_secs: 10,
        log_lists: false,
        touch_id_reuse: 300,
        sheet_reason: String::new(),
    }
}

fn caller() -> Attribution {
    Attribution {
        purpose: Purpose {
            kind: PurposeKind::SshLogin,
            host: Some("server".into()),
            repo: None,
            repo_path: None,
            remote_repo: None,
            remote_command: None,
            namespace: None,
        },
        process: Some(ProcInfo {
            pid: 3,
            name: Some("ssh".into()),
            path: None,
            cwd: Some("/src".into()),
            args: vec![],
        }),
        ancestry: vec![],
        app: Some(App {
            name: "Ghostty".into(),
            bundle_path: "/g.app".into(),
        }),
        context: Context {
            git: None,
            env: vec![],
            session_title: None,
        },
    }
}

fn request(blob: &[u8], data: &[u8]) -> Vec<u8> {
    let mut w = Writer::new();
    w.u8(SIGN_REQUEST);
    w.string(blob);
    w.string(data);
    w.u32(0);
    w.buf
}

fn scope(dir: &str) -> Scope {
    Scope {
        directory: Some(dir.into()),
        host: Some("server".into()),
        repo: None,
    }
}

fn own_request(dir: &str) -> OwnRequest {
    OwnRequest {
        data: vec![1],
        headline: "h".into(),
        reason: "r".into(),
        fp: "SHA256:f".into(),
        scope: scope(dir),
    }
}

fn bound_to(host_key: &[u8]) -> Connection {
    let mut w = Writer::new();
    w.u8(EXTENSION);
    w.string(b"session-bind@openssh.com");
    w.string(host_key);
    let mut conn = Connection::new();
    handle_extension(&ctx(false), &w.buf, &caller(), &mut conn, 0);
    conn
}

#[test]
fn a_request_for_our_own_key_is_ours() {
    let blob = key().ssh_public_blob();
    match handle_sign(&ctx(true), &request(&blob, b"data"), &caller()) {
        SignStep::Own(o) => {
            assert_eq!(o.data, b"data");
            assert_eq!(o.headline, "SSH to server");
            assert_eq!(o.reason, "SSH to server · Ghostty");
            assert_eq!(o.fp, fingerprint(&blob));
            assert_eq!(o.scope, scope("/src"));
        }
        _ => panic!("not ours"),
    }
}

#[test]
fn a_request_without_data_signs_nothing() {
    let blob = key().ssh_public_blob();
    let mut w = Writer::new();
    w.u8(SIGN_REQUEST);
    w.string(&blob);
    match handle_sign(&ctx(true), &w.buf, &caller()) {
        SignStep::Own(o) => assert!(o.data.is_empty()),
        _ => panic!("not ours"),
    }
}

#[test]
fn any_other_key_is_foreign() {
    let blob = key().ssh_public_blob();
    for (c, b) in [(ctx(true), b"other".to_vec()), (ctx(false), blob)] {
        match handle_sign(&c, &request(&b, b"data"), &caller()) {
            SignStep::Foreign(got) => assert_eq!(got, b),
            _ => panic!("not foreign"),
        }
    }
}

#[test]
fn a_request_that_names_no_key_fails() {
    for p in [&[][..], &[SIGN_REQUEST], &[SIGN_REQUEST, 0, 0, 0, 9, 1]] {
        match handle_sign(&ctx(true), p, &caller()) {
            SignStep::Answer(r) => assert_eq!(r, vec![5]),
            _ => panic!("not refused"),
        }
    }
}

#[test]
fn the_window_is_open_only_in_scope() {
    let c = ctx(true);
    let last: Option<Approval> = Some((scope("/src"), 1000));
    let a = authorise(&c, &scope("/src"), &last, 1299);
    assert!(a.reused);
    assert_eq!(a.window, 300);
    let a = authorise(&c, &scope("/other"), &last, 1001);
    assert!(!a.reused);
    assert_eq!(a.window, 0);
    let a = authorise(&c, &scope("/src"), &last, 1300);
    assert!(!a.reused);
    assert_eq!(a.window, 0);
    assert!(!authorise(&c, &scope("/src"), &None, 0).reused);
}

#[test]
fn a_signature_is_answered_recorded_and_counts_as_approval() {
    let who = caller();
    let mut last = None;
    let (reply, e) = finish_own(
        &key(),
        own_request("/src"),
        false,
        Ok(vec![7, 8]),
        &mut last,
        99,
        &who,
        &bound_to(b"host key"),
        STAMP,
    );
    assert_eq!(reply, vec![14, 0, 0, 0, 2, 7, 8]);
    assert_eq!(last, Some((scope("/src"), 99)));
    assert_eq!(e.kind, Kind::Sign);
    assert_eq!(e.outcome, "ok");
    assert_eq!(e.key_fp.as_deref(), Some("SHA256:f"));
    assert_eq!(e.key_comment.as_deref(), Some("mac@keyward"));
    assert_eq!(e.upstream.as_deref(), Some("Secure Enclave"));
    assert_eq!(e.bound_host_fp, Some(fingerprint(b"host key")));
    assert_eq!(e.scope, Some(scope("/src")));
    assert!(!e.reused);
    assert_eq!((e.stamp.ts_nanos, e.stamp.duration_ms), (5, 6));
}

#[test]
fn a_signature_that_rides_does_not_start_the_window_again() {
    let who = caller();
    let conn = Connection::new();
    let c = ctx(true);
    let mut last = None;
    for now in [1000, 1100, 1299] {
        let auth = authorise(&c, &scope("/src"), &last, now);
        assert_eq!(auth.reused, now != 1000);
        let (reply, e) = finish_own(
            &key(),
            own_request("/src"),
            auth.reused,
            Ok(vec![1]),
            &mut last,
            now,
            &who,
            &conn,
            STAMP,
        );
        assert_eq!(reply, vec![14, 0, 0, 0, 1, 1]);
        assert_eq!(e.reused, auth.reused);
        assert_eq!(last, Some((scope("/src"), 1000)));
    }
    assert!(!authorise(&c, &scope("/src"), &last, 1300).reused);
}

#[test]
fn a_refusal_is_answered_recorded_and_approves_nothing() {
    let who = caller();
    let mut last = Some((scope("/before"), 1));
    let (reply, e) = finish_own(
        &key(),
        own_request("/src"),
        false,
        Err("declined or authentication failed".into()),
        &mut last,
        99,
        &who,
        &Connection::new(),
        STAMP,
    );
    assert_eq!(reply, vec![5]);
    assert_eq!(last, Some((scope("/before"), 1)));
    assert_eq!(e.outcome, "declined or authentication failed");
    assert!(!e.reused && e.bound_host_fp.is_none());
}

#[test]
fn an_approval_reaches_the_next_request_from_there() {
    let who = caller();
    let c = ctx(true);
    let mut last = None;
    finish_own(&key(), own_request("/src"), false, Ok(vec![1]), &mut last, 50, &who, &Connection::new(), STAMP);
    assert!(authorise(&c, &scope("/src"), &last, 60).reused);
    assert!(!authorise(&c, &scope("/elsewhere"), &last, 60).reused);
}

#[test]
fn a_request_goes_to_the_upstream_that_owns_the_key() {
    let id = |b: &[u8], c: &str| Identity {
        blob: b.to_vec(),
        comment: c.into(),
    };
    let routes = refresh_identities(&vec![
        Some(vec![id(b"a", "")]),
        Some(vec![id(b"b", "work"), id(b"a", "late")]),
        Some(vec![id(b"c", "third")]),
    ]);
    let ups = upstreams();
    let p = request(b"a", b"data");
    match route_sign(&ups, &routes, b"a", &p, false) {
        (RouteStep::Forward(0, m), None) => assert_eq!(m, p),
        _ => panic!("not passed on"),
    }
    match route_sign(&ups, &routes, b"b", b"message", true) {
        (RouteStep::Forward(1, m), comment) => {
            assert_eq!(m, b"message");
            assert_eq!(comment.as_deref(), Some("work"));
        }
        _ => panic!("not passed on"),
    }
    let (step, comment) = route_sign(&ups, &routes, b"c", &p, false);
    assert!(matches!(step, RouteStep::Nowhere));
    assert_eq!(comment.as_deref(), Some("third"));
    assert!(matches!(route_sign(&ups, &routes, b"z", &p, false), (RouteStep::Refresh, None)));
    assert!(matches!(route_sign(&ups, &routes, b"z", &p, true), (RouteStep::Nowhere, None)));
    assert!(matches!(route_sign(&ups, &Routes::new(), b"a", &p, true), (RouteStep::Nowhere, None)));
}

#[test]
fn waiting_for_too_long_is_a_timeout() {
    assert!(matches!(forwarded(3, Err(Trouble::WouldBlock)), Forwarded::TimedOut(3)));
    assert!(matches!(forwarded(3, Err(Trouble::TimedOut)), Forwarded::TimedOut(3)));
    match forwarded(1, Err(Trouble::Other("gone".into()))) {
        Forwarded::Failed(1, why) => assert_eq!(why, "gone"),
        _ => panic!("not failed"),
    }
    match forwarded(2, Ok(vec![14])) {
        Forwarded::Answered(2, r) => assert_eq!(r, vec![14]),
        _ => panic!("not answered"),
    }
}

#[test]
fn an_upstreams_answer_is_passed_on() {
    let who = caller();
    let ups = upstreams();
    let (reply, e) = finish_forwarded(
        &ups,
        b"blob",
        Some("work".into()),
        Forwarded::Answered(1, vec![14, 1]),
        &who,
        &Connection::new(),
        STAMP,
    );
    assert_eq!(reply, vec![14, 1]);
    assert_eq!(e.kind, Kind::Sign);
    assert_eq!(e.outcome, "ok");
    assert_eq!(e.upstream.as_deref(), Some("gpg-agent"));
    assert_eq!(e.key_fp, Some(fingerprint(b"blob")));
    assert_eq!(e.key_comment.as_deref(), Some("work"));
    assert!(e.scope.is_none() && !e.reused);
}

#[test]
fn what_went_wrong_upstream_is_recorded() {
    let who = caller();
    let ups = upstreams();
    let cases = [
        (Forwarded::Nowhere, vec![5], None, "no upstream holds this key"),
        (Forwarded::Answered(0, vec![5]), vec![5], Some("Secretive"), "denied"),
        (Forwarded::Answered(0, vec![]), vec![], Some("Secretive"), "ok"),
        (Forwarded::TimedOut(0), vec![5], Some("Secretive"), "timeout"),
        (Forwarded::Failed(1, "broken pipe".into()), vec![5], Some("gpg-agent"), "error: broken pipe"),
    ];
    for (f, reply, upstream, outcome) in cases {
        let (r, e) = finish_forwarded(&ups, b"k", None, f, &who, &Connection::new(), STAMP);
        assert_eq!(r, reply);
        assert_eq!(e.upstream.as_deref(), upstream);
        assert_eq!(e.outcome, outcome);
    }
}
