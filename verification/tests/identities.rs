use keyward::agent::identities::{
    handle_request_identities, parse_identities, refresh_identities, Identity, Routes,
};
use keyward::agent::{failure, Ctx};
use keyward::attrib::{Attribution, Context, ProcInfo};
use keyward::enclave::Enclave;
use keyward::event::{Kind, Stamp};
use keyward::purpose::{Kind as PurposeKind, Purpose};

fn id(blob: &[u8], comment: &str) -> Identity {
    Identity {
        blob: blob.to_vec(),
        comment: comment.into(),
    }
}

fn ctx(own: bool, log_lists: bool) -> Ctx {
    Ctx {
        enclave: if own {
            Enclave::load(vec![1], vec![4, 5, 6], 3, "mac@keyward".into())
        } else {
            None
        },
        upstreams: vec![],
        timeout_secs: 10,
        log_lists,
        touch_id_reuse: 0,
        sheet_reason: String::new(),
    }
}

fn caller(name: Option<&str>) -> Attribution {
    Attribution {
        purpose: Purpose {
            kind: PurposeKind::Unknown,
            host: None,
            repo: None,
            repo_path: None,
            remote_repo: None,
            remote_command: None,
            namespace: None,
        },
        process: Some(ProcInfo {
            pid: 3,
            name: name.map(|n| n.to_string()),
            path: None,
            cwd: None,
            args: vec![],
        }),
        ancestry: vec![],
        app: None,
        context: Context {
            git: None,
            env: vec![],
            session_title: None,
        },
    }
}

const STAMP: Stamp = Stamp {
    ts_nanos: 17,
    duration_ms: 4,
};

#[test]
fn the_first_upstream_to_claim_a_key_owns_it() {
    let lists = vec![
        None,
        Some(vec![id(b"a", "a1"), id(b"b", "b1"), id(b"a", "a-again")]),
        Some(vec![id(b"b", "b2"), id(b"c", "c2")]),
    ];
    let r = refresh_identities(&lists);
    let got: Vec<(&[u8], &str, usize)> = r
        .entries
        .iter()
        .map(|e| (&e.identity.blob[..], &e.identity.comment[..], e.upstream))
        .collect();
    assert_eq!(got, vec![(&b"a"[..], "a1", 1), (b"b", "b1", 1), (b"c", "c2", 2)]);
    assert_eq!(r.find(b"b").unwrap().upstream, 1);
    assert_eq!(r.find(b"c").unwrap().upstream, 2);
    assert!(r.find(b"d").is_none());
    assert!(r.find(b"").is_none());
}

#[test]
fn order_decides() {
    let one = refresh_identities(&vec![Some(vec![id(b"k", "x")]), Some(vec![id(b"k", "y")])]);
    assert_eq!(one.find(b"k").unwrap().identity.comment, "x");
    let two = refresh_identities(&vec![Some(vec![id(b"k", "y")]), Some(vec![id(b"k", "x")])]);
    assert_eq!(two.find(b"k").unwrap().identity.comment, "y");
}

#[test]
fn no_answer_is_no_routes() {
    assert!(refresh_identities(&vec![]).entries.is_empty());
    assert!(refresh_identities(&vec![None, None]).entries.is_empty());
    assert!(Routes::new().find(b"x").is_none());
}

#[test]
fn our_own_key_is_offered_first() {
    let routes = refresh_identities(&vec![Some(vec![id(b"up", "Schlüssel")])]);
    let c = ctx(true, false);
    let who = caller(None);
    let (reply, event) = handle_request_identities(&c, &routes, &who, STAMP);
    assert!(event.is_none());
    let own = c.enclave.as_ref().unwrap().ssh_public_blob();
    assert_eq!(
        parse_identities(&reply),
        Some(vec![
            (own, b"mac@keyward".to_vec()),
            (b"up".to_vec(), "Schlüssel".as_bytes().to_vec()),
        ])
    );
}

#[test]
fn the_answer_has_a_number_and_the_keys() {
    let routes = refresh_identities(&vec![Some(vec![id(b"ab", "c")])]);
    let (reply, _) = handle_request_identities(&ctx(false, false), &routes, &caller(None), STAMP);
    assert_eq!(reply, b"\x0c\x00\x00\x00\x01\x00\x00\x00\x02ab\x00\x00\x00\x01c");
    let (reply, _) =
        handle_request_identities(&ctx(false, false), &Routes::new(), &caller(None), STAMP);
    assert_eq!(reply, b"\x0c\x00\x00\x00\x00");
}

#[test]
fn listings_are_recorded_on_demand_but_never_the_probes() {
    let routes = refresh_identities(&vec![Some(vec![id(b"a", ""), id(b"b", "")])]);
    let who = caller(Some("ssh"));
    let (_, event) = handle_request_identities(&ctx(true, true), &routes, &who, STAMP);
    let e = event.unwrap();
    assert_eq!(e.kind, Kind::ListIdentities);
    assert_eq!(e.outcome, "3 keys");
    assert_eq!((e.stamp.ts_nanos, e.stamp.duration_ms), (17, 4));
    assert!(e.key_fp.is_none() && e.upstream.is_none() && e.scope.is_none() && !e.reused);
    let probe = caller(Some("keywardd"));
    assert!(handle_request_identities(&ctx(true, true), &routes, &probe, STAMP).1.is_none());
    assert!(handle_request_identities(&ctx(true, false), &routes, &who, STAMP).1.is_none());
}

#[test]
fn only_a_complete_list_is_an_answer() {
    assert_eq!(parse_identities(b"\x0c\x00\x00\x00\x00"), Some(vec![]));
    assert_eq!(parse_identities(&failure()), None);
    assert_eq!(parse_identities(b""), None);
    assert_eq!(parse_identities(b"\x0c\x00\x00"), None);
    assert_eq!(parse_identities(b"\x0d\x00\x00\x00\x00"), None);
    assert_eq!(parse_identities(b"\x0c\x00\x00\x00\x01\x00\x00\x00\x01a"), None);
    assert_eq!(parse_identities(b"\x0c\xff\xff\xff\xff"), None);
}
