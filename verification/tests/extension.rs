use keyward::agent::extension::{bind_session, handle_extension, Connection};
use keyward::agent::sign::{finish_forwarded, Forwarded};
use keyward::agent::{Ctx, EXTENSION};
use keyward::attrib::{Attribution, Context};
use keyward::crypto::fingerprint;
use keyward::event::{Kind, Stamp};
use keyward::purpose::{Kind as PurposeKind, Purpose};
use keyward::wire::Writer;

fn ctx(log_lists: bool) -> Ctx {
    Ctx {
        enclave: None,
        upstreams: vec![],
        timeout_secs: 10,
        log_lists,
        touch_id_reuse: 0,
        sheet_reason: String::new(),
    }
}

fn caller() -> Attribution {
    Attribution {
        purpose: Purpose {
            kind: PurposeKind::Unknown,
            host: None,
            repo: None,
            repo_path: None,
            remote_repo: None,
            remote_command: None,
            namespace: None,
        },
        process: None,
        ancestry: vec![],
        app: None,
        context: Context {
            git: None,
            env: vec![],
            session_title: None,
        },
    }
}

fn message(name: &[u8], key: Option<&[u8]>) -> Vec<u8> {
    let mut w = Writer::new();
    w.u8(EXTENSION);
    w.string(name);
    if let Some(k) = key {
        w.string(k);
        w.string(b"session id");
    }
    w.buf
}

#[test]
fn a_binding_is_kept_and_answered_with_a_failure() {
    let who = caller();
    let mut conn = Connection::new();
    assert_eq!(*conn.bound_host(), None);
    let m = message(b"session-bind@openssh.com", Some(b"host key"));
    let (reply, event) = handle_extension(&ctx(true), &m, &who, &mut conn, 9);
    assert_eq!(reply, vec![5]);
    assert_eq!(*conn.bound_host(), Some(fingerprint(b"host key")));
    let e = event.unwrap();
    assert_eq!(e.kind, Kind::SessionBind);
    assert_eq!(e.bound_host_fp, Some(fingerprint(b"host key")));
    assert_eq!(e.outcome, "recorded");
    assert_eq!((e.stamp.ts_nanos, e.stamp.duration_ms), (9, 0));
    assert!(e.key_fp.is_none() && e.key_comment.is_none() && e.upstream.is_none());
}

#[test]
fn the_same_binding_again_is_no_news() {
    let who = caller();
    let mut conn = Connection::new();
    let m = message(b"session-bind@openssh.com", Some(b"host key"));
    assert!(handle_extension(&ctx(true), &m, &who, &mut conn, 9).1.is_some());
    let (reply, event) = handle_extension(&ctx(true), &m, &who, &mut conn, 9);
    assert_eq!(reply, vec![5]);
    assert!(event.is_none());
    assert_eq!(*conn.bound_host(), Some(fingerprint(b"host key")));
    let m = message(b"session-bind@openssh.com", Some(b"other"));
    assert!(handle_extension(&ctx(true), &m, &who, &mut conn, 9).1.is_some());
    assert_eq!(*conn.bound_host(), Some(fingerprint(b"other")));
}

#[test]
fn bindings_are_recorded_only_on_demand() {
    let who = caller();
    let mut conn = Connection::new();
    let m = message(b"session-bind@openssh.com", Some(b"host key"));
    assert!(handle_extension(&ctx(false), &m, &who, &mut conn, 9).1.is_none());
    assert_eq!(*conn.bound_host(), Some(fingerprint(b"host key")));
}

#[test]
fn other_extensions_change_nothing() {
    let who = caller();
    let mut conn = Connection::new();
    let bind = message(b"session-bind@openssh.com", Some(b"before"));
    assert!(handle_extension(&ctx(true), &bind, &who, &mut conn, 9).1.is_some());
    for m in [
        message(b"query", Some(b"x")),
        message(b"session-bind@openssh.com", None),
        message(b"session-bind@openssh.com\xff", Some(b"x")),
        message(b"", None),
        vec![EXTENSION],
        vec![],
    ] {
        let (reply, event) = handle_extension(&ctx(true), &m, &who, &mut conn, 9);
        assert_eq!(reply, vec![5]);
        assert!(event.is_none());
        assert_eq!(*conn.bound_host(), Some(fingerprint(b"before")));
    }
}

#[test]
fn a_binding_marks_the_signatures_on_its_connection_alone() {
    let who = caller();
    let stamp = Stamp {
        ts_nanos: 1,
        duration_ms: 2,
    };
    let mut one = Connection::new();
    let two = Connection::new();
    let m = message(b"session-bind@openssh.com", Some(b"host key"));
    handle_extension(&ctx(false), &m, &who, &mut one, 9);
    handle_extension(&ctx(false), &message(b"query", None), &who, &mut one, 9);
    let sign = |c: &Connection| {
        finish_forwarded(&vec![], b"k", None, Forwarded::Nowhere, &who, c, stamp)
            .1
            .bound_host_fp
    };
    assert_eq!(sign(&one), Some(fingerprint(b"host key")));
    assert_eq!(sign(&one), Some(fingerprint(b"host key")));
    assert_eq!(sign(&two), None);
}

#[test]
fn a_session_keeps_the_fingerprint_it_is_given() {
    let who = caller();
    let mut bound = None;
    assert!(bind_session(&ctx(true), "SHA256:a".into(), &who, &mut bound, 1).is_some());
    assert_eq!(bound.as_deref(), Some("SHA256:a"));
    assert!(bind_session(&ctx(true), "SHA256:a".into(), &who, &mut bound, 1).is_none());
    assert!(bind_session(&ctx(false), "SHA256:b".into(), &who, &mut bound, 1).is_none());
    assert_eq!(bound.as_deref(), Some("SHA256:b"));
}
