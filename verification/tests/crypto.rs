use base64::Engine;
use keyward::crypto::{digest_fingerprint, fingerprint};
use sha2::Digest;

#[test]
fn fingerprints_are_those_of_openssh() {
    assert_eq!(
        fingerprint(b""),
        "SHA256:47DEQpj8HBSa+/TImW+5JCeuQeRkm5NMpJWZG3hSuFU"
    );
    assert_eq!(
        fingerprint(b"hello world"),
        "SHA256:uU0nuZNNPgilLlLX2n2r+sSE7+N6U4DukIj3rOLvzek"
    );
    assert_eq!(fingerprint(b"x").chars().count(), 50);
}

#[test]
fn a_fingerprint_is_the_text_of_the_digest() {
    assert_eq!(
        digest_fingerprint(&[0; 32]),
        format!("SHA256:{}", "A".repeat(43))
    );
    assert_eq!(
        digest_fingerprint(&[255; 32]),
        format!("SHA256:{}8", "/".repeat(42))
    );
    let d = sha2::Sha256::digest(b"abc");
    assert_eq!(digest_fingerprint(&d), fingerprint(b"abc"));
}

/// Base64 by its definition: each six bits are a symbol, and zero bits follow
/// the end.
fn by_definition(data: &[u8]) -> String {
    let alphabet: Vec<char> = "ABCDEFGHIJKLMNOPQRSTUVWXYZabcdefghijklmnopqrstuvwxyz0123456789+/"
        .chars()
        .collect();
    let mut out = String::new();
    for i in 0..(data.len() * 8 + 5) / 6 {
        let byte = 6 * i / 8;
        let next = if byte + 1 < data.len() { data[byte + 1] as usize } else { 0 };
        let pair = data[byte] as usize * 256 + next;
        let shift = [1024, 0, 256, 0, 64, 0, 16, 0][6 * i % 8];
        out.push(alphabet[pair / shift % 64]);
    }
    out
}

#[test]
fn base64_is_what_it_is_defined_as() {
    let engine = base64::engine::general_purpose::STANDARD_NO_PAD;
    let padded = base64::engine::general_purpose::STANDARD;
    let mut data: Vec<u8> = vec![];
    for n in 0..400u32 {
        assert_eq!(engine.encode(&data), by_definition(&data));
        let mut p = by_definition(&data);
        while p.len() % 4 != 0 {
            p.push('=');
        }
        assert_eq!(padded.encode(&data), p);
        data.push((n * 37 + 11) as u8);
    }
}

#[test]
fn different_digests_have_different_fingerprints() {
    let a = [7u8; 32];
    for k in 0..32 {
        let mut b = a;
        b[k] = 8;
        assert_ne!(digest_fingerprint(&a), digest_fingerprint(&b));
    }
}
