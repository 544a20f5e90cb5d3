use keyward::enclave::{
    default_key_path, generate, mpint, ssh_ecdsa_signature, take_filled, Enclave, GenerateAction,
    GenerateEvent, KeyStore, Policy,
};
use keyward::wire::{Reader, Writer};

fn point() -> Vec<u8> {
    let mut p = vec![4u8];
    p.extend(0..64u8);
    p
}

fn buffer(written: &[u8], cap: usize) -> Vec<u8> {
    let mut b = written.to_vec();
    b.resize(cap, 0);
    b
}

fn key() -> Enclave {
    Enclave::load(vec![1, 2, 3], buffer(&point(), 256), 65, "mac@keyward".into()).unwrap()
}

#[test]
fn policies_go_by_their_words() {
    for p in [Policy::NoAuth, Policy::UserPresence, Policy::BiometryCurrentSet] {
        assert_eq!(Policy::parse(p.label()), Some(p));
    }
    assert_eq!(Policy::parse("none"), Some(Policy::NoAuth));
    assert_eq!(Policy::parse("presence"), Some(Policy::UserPresence));
    assert_eq!(Policy::parse("biometry"), Some(Policy::BiometryCurrentSet));
    assert_eq!(Policy::parse("None"), None);
    assert_eq!(Policy::parse(""), None);
    assert_eq!(Policy::NoAuth.code(), 0);
    assert_eq!(Policy::UserPresence.code(), 1);
    assert_eq!(Policy::BiometryCurrentSet.code(), 2);
}

#[test]
fn the_handle_lives_where_the_configuration_says() {
    let home = "/Users/me";
    assert_eq!(KeyStore::from_config(Some("keychain"), home), KeyStore::Keychain);
    assert_eq!(
        KeyStore::from_config(Some("/k.blob"), home),
        KeyStore::File("/k.blob".into())
    );
    let file = "/Users/me/Library/Application Support/Keyward/enclave-key.blob";
    assert_eq!(KeyStore::from_config(None, home), KeyStore::File(file.into()));
    assert_eq!(default_key_path(home), file);
    assert_eq!(KeyStore::File("/k.blob".into()).describe(), "/k.blob");
    assert_eq!(
        KeyStore::Keychain.describe(),
        "login keychain (dev.danielsol.keyward / enclave-key)"
    );
}

#[test]
fn a_call_fills_as_much_as_it_says() {
    assert_eq!(take_filled(vec![1, 2, 3], 2), Some(vec![1, 2]));
    assert_eq!(take_filled(vec![1, 2, 3], 3), Some(vec![1, 2, 3]));
    assert_eq!(take_filled(vec![1, 2, 3], 9), Some(vec![1, 2, 3]));
    assert_eq!(take_filled(vec![1, 2, 3], 0), None);
    assert_eq!(take_filled(vec![1, 2, 3], -1), None);
    assert_eq!(KeyStore::read(vec![9, 8], 1), Some(vec![9]));
    assert_eq!(KeyStore::read(vec![9, 8], -4), None);
}

#[test]
fn a_key_needs_a_handle_and_a_point() {
    assert_eq!(Enclave::openable(None), None);
    assert_eq!(Enclave::openable(Some(vec![])), None);
    assert_eq!(Enclave::openable(Some(vec![1])), Some(vec![1]));
    assert!(Enclave::load(vec![], vec![4], 1, "c".into()).is_none());
    assert!(Enclave::load(vec![1], vec![4], 0, "c".into()).is_none());
    assert!(Enclave::load(vec![1], vec![4], -2, "c".into()).is_none());
    let e = key();
    assert_eq!(e.handle(), [1, 2, 3]);
    assert_eq!(e.comment, "mac@keyward");
    assert_eq!(e.comment_str(), "mac@keyward");
}

#[test]
fn the_public_key_is_in_wire_format() {
    let mut w = Writer::new();
    w.string(b"ecdsa-sha2-nistp256");
    w.string(b"nistp256");
    w.string(&point());
    assert_eq!(key().ssh_public_blob(), w.buf);
    assert_eq!(w.buf.len(), 104);
}

#[test]
fn the_key_line_is_what_authorized_keys_wants() {
    assert_eq!(
        key().authorized_key_line(),
        "ecdsa-sha2-nistp256 AAAAE2VjZHNhLXNoYTItbmlzdHAyNTYAAAAIbmlzdHAyNTYAAABBBAABAgMEBQYHCAkKCwwNDg8QERITFBUWFxgZGhscHR4fICEiIyQlJicoKSorLC0uLzAxMjM0NTY3ODk6Ozw9Pj8= mac@keyward"
    );
}

#[test]
fn numbers_lose_zeros_and_gain_one_for_the_sign() {
    assert_eq!(mpint(&[0, 0, 1, 0]), vec![1, 0]);
    assert_eq!(mpint(&[0x7f]), vec![0x7f]);
    assert_eq!(mpint(&[0x80]), vec![0, 0x80]);
    assert_eq!(mpint(&[0, 0xff]), vec![0, 0xff]);
    assert_eq!(mpint(&[0, 0]), Vec::<u8>::new());
    assert_eq!(mpint(&[]), Vec::<u8>::new());
}

#[test]
fn equal_numbers_are_written_the_same() {
    assert_eq!(mpint(&[0, 0, 0x90, 5]), mpint(&[0x90, 5]));
    assert_eq!(mpint(&[0, 3]), mpint(&[3]));
}

#[test]
fn a_signature_is_read_back() {
    let r = [0x80u8; 32];
    let mut s = [1u8; 32];
    s[0] = 0;
    let sig = ssh_ecdsa_signature(&r, &s);
    let mut rd = Reader::new(&sig);
    assert_eq!(rd.string(), Some(&b"ecdsa-sha2-nistp256"[..]));
    let inner = rd.string().unwrap();
    assert_eq!(rd.u8(), None);
    let mut rd = Reader::new(inner);
    let mut long = vec![0u8];
    long.extend(r);
    assert_eq!(rd.string(), Some(&long[..]));
    assert_eq!(rd.string(), Some(&s[1..]));
    assert_eq!(rd.u8(), None);
}

#[test]
fn the_enclaves_answer_is_a_signature_or_a_reason() {
    let raw: Vec<u8> = (1..=64).collect();
    assert_eq!(
        Enclave::sign(64, buffer(&raw, 256)),
        Ok(ssh_ecdsa_signature(&raw[..32], &raw[32..]))
    );
    let err = |n: isize| Enclave::sign(n, vec![0; 256]).unwrap_err();
    assert_eq!(err(-3), "declined or authentication failed");
    assert_eq!(err(-1), "enclave signing failed (code -1)");
    assert_eq!(err(0), "enclave signing failed (code 0)");
    assert_eq!(err(63), "unexpected signature length 63");
    assert_eq!(err(1000), "unexpected signature length 256");
    assert_eq!(
        err(isize::MIN),
        format!("enclave signing failed (code {})", isize::MIN)
    );
}

fn refusal(a: GenerateAction) -> String {
    match a {
        GenerateAction::Refuse(s) => s,
        _ => panic!("not refused"),
    }
}

#[test]
fn a_key_is_made_step_by_step() {
    let store = KeyStore::File("/k".into());
    let p = Policy::BiometryCurrentSet;
    assert!(matches!(
        generate(&store, p, false, GenerateEvent::Availability(true)),
        GenerateAction::LookForKey
    ));
    assert!(matches!(
        generate(&store, p, false, GenerateEvent::Existing(false)),
        GenerateAction::Create(2)
    ));
    match generate(&store, p, false, GenerateEvent::Created(vec![5, 6, 7], 2)) {
        GenerateAction::WriteFile(path, blob) => {
            assert_eq!(path, "/k");
            assert_eq!(blob, vec![5, 6]);
        }
        _ => panic!("not written"),
    }
    assert!(matches!(
        generate(&store, p, false, GenerateEvent::Written(Ok(()))),
        GenerateAction::Finished
    ));
    match generate(&KeyStore::Keychain, p, true, GenerateEvent::Created(vec![5, 6, 7], 3)) {
        GenerateAction::Keep(blob, over) => {
            assert_eq!(blob, vec![5, 6, 7]);
            assert!(over);
        }
        _ => panic!("not kept"),
    }
    assert!(matches!(
        generate(&KeyStore::Keychain, p, true, GenerateEvent::Kept(0)),
        GenerateAction::Finished
    ));
}

#[test]
fn a_key_is_not_made_for_a_reason() {
    let store = KeyStore::File("/k".into());
    let p = Policy::UserPresence;
    assert_eq!(
        refusal(generate(&store, p, true, GenerateEvent::Availability(false))),
        "no Secure Enclave on this machine"
    );
    assert_eq!(
        refusal(generate(&store, p, true, GenerateEvent::Created(vec![], -7))),
        "enclave key generation failed (code -7)"
    );
    assert_eq!(
        refusal(generate(&store, p, true, GenerateEvent::Written(Err("disk full".into())))),
        "disk full"
    );
    assert_eq!(
        refusal(generate(&KeyStore::Keychain, p, false, GenerateEvent::Kept(-25299))),
        "keychain store failed (code -25299)"
    );
}

#[test]
fn an_existing_key_is_kept_unless_forced() {
    let store = KeyStore::File("/k".into());
    let p = Policy::UserPresence;
    assert_eq!(
        refusal(generate(&store, p, false, GenerateEvent::Existing(true))),
        "/k already holds a key. Overwriting destroys the existing key permanently — it cannot be exported or restored. Pass --force only if you have already rotated away from it."
    );
    assert!(matches!(
        generate(&store, p, true, GenerateEvent::Existing(true)),
        GenerateAction::Create(1)
    ));
    assert!(matches!(
        generate(&store, Policy::NoAuth, false, GenerateEvent::Existing(false)),
        GenerateAction::Create(0)
    ));
}
