//! Digests and base64, and the fingerprint that is made of them.

use crate::text::concat2;
use base64::Engine;
use sha2::Digest;
use vstd::prelude::*;

verus! {

// ---------------------------------------------------------------------------
// SHA-256
// ---------------------------------------------------------------------------

/// The SHA-256 digest of some bytes.
pub uninterp spec fn sha256(data: Seq<u8>) -> Seq<u8>;

/// The number of bytes in a SHA-256 digest.
pub const DIGEST_LEN: usize = 32;

/// `sha2::Sha256::digest`: the result depends on the bytes alone, and has 32
/// bytes. Which bytes they are is left to the name `sha256`.
#[verifier::external_body]
pub(crate) fn sha256_digest(data: &[u8]) -> (r: Vec<u8>)
    ensures
        r@ == sha256(data@),
        r@.len() == DIGEST_LEN,
{
    sha2::Sha256::digest(data).to_vec()
}

// ---------------------------------------------------------------------------
// Base64
// ---------------------------------------------------------------------------

/// The symbol of the standard alphabet for a value below 64.
pub open spec fn symbol(v: int) -> char {
    "ABCDEFGHIJKLMNOPQRSTUVWXYZabcdefghijklmnopqrstuvwxyz0123456789+/"@[v]
}

/// The `i`th group of six bits of `data`, where zero bits follow its end.
pub open spec fn sextet(data: Seq<u8>, i: int) -> int {
    let byte = 6 * i / 8;
    let pair = data[byte] * 0x100 + (if byte + 1 < data.len() {
        data[byte + 1] as int
    } else {
        0
    });
    let offset = 6 * i % 8;
    if offset == 0 {
        pair / 1024 % 64
    } else if offset == 2 {
        pair / 256 % 64
    } else if offset == 4 {
        pair / 64 % 64
    } else {
        pair / 16 % 64
    }
}

/// Base64 in the standard alphabet, without padding: one symbol for each group
/// of six bits.
pub open spec fn base64_text(data: Seq<u8>) -> Seq<char> {
    Seq::new(((data.len() * 8 + 5) / 6) as nat, |i: int| symbol(sextet(data, i)))
}

/// Base64 in the standard alphabet, filled up with `=` to a multiple of four
/// characters.
pub open spec fn base64_padded(data: Seq<u8>) -> Seq<char> {
    let body = base64_text(data);
    body + Seq::new(((4 - body.len() % 4) % 4) as nat, |i: int| '=')
}

/// The base64 text of so many bytes can be held in memory.
pub open spec fn encodable(len: nat) -> bool {
    len / 3 * 4 + 4 <= isize::MAX
}

/// `base64::Engine::encode` of the engine `STANDARD_NO_PAD`: each six bits of
/// the input become their symbol of the standard alphabet, with no padding. It
/// panics where the length of the text overflows.
#[verifier::external_body]
pub(crate) fn base64_encode(data: &[u8]) -> (r: String)
    requires
        encodable(data@.len()),
    ensures
        r@ == base64_text(data@),
{
    base64::engine::general_purpose::STANDARD_NO_PAD.encode(data)
}

/// `base64::Engine::encode` of the engine `STANDARD`: as above, and filled up
/// with `=` to a multiple of four characters. It panics where the length of the
/// text overflows.
#[verifier::external_body]
pub(crate) fn base64_encode_padded(data: &[u8]) -> (r: String)
    requires
        encodable(data@.len()),
    ensures
        r@ == base64_padded(data@),
{
    base64::engine::general_purpose::STANDARD.encode(data)
}

// ---------------------------------------------------------------------------
// Fingerprints
// ---------------------------------------------------------------------------

/// The fingerprint that goes with a digest.
pub open spec fn digest_text(digest: Seq<u8>) -> Seq<char> {
    "SHA256:"@ + base64_text(digest)
}

/// The fingerprint of a key blob.
pub open spec fn fingerprint_text(blob: Seq<u8>) -> Seq<char> {
    digest_text(sha256(blob))
}

/// The fingerprint that goes with a digest, as OpenSSH writes it.
pub fn digest_fingerprint(digest: &[u8]) -> (r: String)
    requires
        digest@.len() == DIGEST_LEN,
    ensures
        r@ == digest_text(digest@),
{
    let b = base64_encode(digest);
    concat2("SHA256:", b.as_str())
}

/// The fingerprint of a key blob, as OpenSSH writes it.
pub fn fingerprint(blob: &[u8]) -> (r: String)
    ensures
        r@ == fingerprint_text(blob@),
        r@.len() == 50,
{
    let d = sha256_digest(blob);
    proof {
        reveal_strlit("SHA256:");
    }
    digest_fingerprint(d.as_slice())
}

// ---------------------------------------------------------------------------
// Laws
// ---------------------------------------------------------------------------

/// A fingerprint shows the whole digest: two digests with the same fingerprint
/// are the same.
pub proof fn fingerprint_shows_digest(a: Seq<u8>, b: Seq<u8>)
    requires
        a.len() == DIGEST_LEN,
        b.len() == DIGEST_LEN,
        digest_text(a) == digest_text(b),
    ensures
        a == b,
{
    let x = base64_text(a);
    let y = base64_text(b);
    assert(x =~= digest_text(a).skip("SHA256:"@.len() as int));
    assert(y =~= digest_text(b).skip("SHA256:"@.len() as int));
    assert forall|i: int| 0 <= i < 43 implies sextet(a, i) == sextet(b, i) by {
        assert(x[i] == y[i]);
        lemma_symbol_injective(sextet(a, i), sextet(b, i));
    }
    assert forall|k: int| 0 <= k < 32 implies a[k] == b[k] by {
        lemma_byte_from_sextets(a, b, k);
    }
    assert(a =~= b);
}

proof fn lemma_symbol_injective(v: int, w: int)
    requires
        0 <= v < 64,
        0 <= w < 64,
        symbol(v) == symbol(w),
    ensures
        v == w,
{
    reveal_strlit("ABCDEFGHIJKLMNOPQRSTUVWXYZabcdefghijklmnopqrstuvwxyz0123456789+/");
}

/// The six bits from each even offset of two bytes.
proof fn lemma_pair(b: u8, c: u8)
    by (bit_vector)
    ensures
        (b * 0x100 + c) / 1024 % 64 == b / 4,
        (b * 0x100 + c) / 256 % 64 == b % 64,
        (b * 0x100 + c) / 64 % 64 == b % 16 * 4 + c / 64,
        (b * 0x100 + c) / 16 % 64 == b % 4 * 16 + c / 16,
{
}

/// The first symbol for the bytes from `3 * q` on.
proof fn lemma_first_symbol(s: Seq<u8>, q: int)
    requires
        0 <= q,
        3 * q + 1 < s.len(),
    ensures
        sextet(s, 4 * q) == s[3 * q] / 4,
{
    assert(6 * (4 * q) / 8 == 3 * q && 6 * (4 * q) % 8 == 0);
    lemma_pair(s[3 * q], s[3 * q + 1]);
}

/// The second symbol for the bytes from `3 * q` on.
proof fn lemma_second_symbol(s: Seq<u8>, q: int)
    requires
        0 <= q,
        3 * q + 1 < s.len(),
    ensures
        sextet(s, 4 * q + 1) == s[3 * q] % 4 * 16 + s[3 * q + 1] / 16,
{
    assert(6 * (4 * q + 1) / 8 == 3 * q && 6 * (4 * q + 1) % 8 == 6);
    lemma_pair(s[3 * q], s[3 * q + 1]);
}

/// The third symbol for the bytes from `3 * q` on, of which the last may lie
/// behind the end.
proof fn lemma_third_symbol(s: Seq<u8>, q: int)
    requires
        0 <= q,
        3 * q + 1 < s.len(),
    ensures
        sextet(s, 4 * q + 2) == s[3 * q + 1] % 16 * 4 + (if 3 * q + 2 < s.len() {
            s[3 * q + 2] / 64
        } else {
            0
        }),
{
    assert(6 * (4 * q + 2) / 8 == 3 * q + 1 && 6 * (4 * q + 2) % 8 == 4);
    let next: u8 = if 3 * q + 2 < s.len() {
        s[3 * q + 2]
    } else {
        0
    };
    lemma_pair(s[3 * q + 1], next);
}

/// The fourth symbol for the bytes from `3 * q` on.
proof fn lemma_fourth_symbol(s: Seq<u8>, q: int)
    requires
        0 <= q,
        3 * q + 2 < s.len(),
    ensures
        sextet(s, 4 * q + 3) == s[3 * q + 2] % 64,
{
    assert(6 * (4 * q + 3) / 8 == 3 * q + 2 && 6 * (4 * q + 3) % 8 == 2);
    let next: u8 = if 3 * q + 3 < s.len() {
        s[3 * q + 3]
    } else {
        0
    };
    lemma_pair(s[3 * q + 2], next);
}

/// Two bytes whose halves are the same are the same.
proof fn lemma_same_byte(x: int, y: int, d: int)
    requires
        d == 4 || d == 16 || d == 64,
        x / d == y / d,
        x % d == y % d,
    ensures
        x == y,
{
}

proof fn lemma_byte_from_sextets(a: Seq<u8>, b: Seq<u8>, k: int)
    requires
        a.len() == 32,
        b.len() == 32,
        0 <= k < 32,
        forall|i: int| 0 <= i < 43 ==> sextet(a, i) == sextet(b, i),
    ensures
        a[k] == b[k],
{
    let q = k / 3;
    assert(sextet(a, 4 * q + 1) == sextet(b, 4 * q + 1));
    lemma_second_symbol(a, q);
    lemma_second_symbol(b, q);
    if k == 3 * q {
        assert(sextet(a, 4 * q) == sextet(b, 4 * q));
        lemma_first_symbol(a, q);
        lemma_first_symbol(b, q);
        lemma_same_byte(a[k] as int, b[k] as int, 4);
    } else {
        assert(sextet(a, 4 * q + 2) == sextet(b, 4 * q + 2));
        lemma_third_symbol(a, q);
        lemma_third_symbol(b, q);
        if k == 3 * q + 1 {
            lemma_same_byte(a[k] as int, b[k] as int, 16);
        } else {
            assert(sextet(a, 4 * q + 3) == sextet(b, 4 * q + 3));
            lemma_fourth_symbol(a, q);
            lemma_fourth_symbol(b, q);
            lemma_same_byte(a[k] as int, b[k] as int, 64);
        }
    }
}

/// A fingerprint is `SHA256:` and the whole digest in base64: blobs with the same
/// digest have the same, and blobs with different digests different ones.
pub proof fn fingerprint_is_the_digest(a: &[u8], b: &[u8], r: String, q: String)
    requires
        call_ensures(fingerprint, (a,), r),
        call_ensures(fingerprint, (b,), q),
    ensures
        r@.len() == 50,
        r@.take(7) == "SHA256:"@,
        r@.skip(7) == base64_text(sha256(a@)),
        r@ == q@ <==> sha256(a@) == sha256(b@),
{
    reveal_strlit("SHA256:");
    assert(base64_text(sha256(a@)).len() == 43 && base64_text(sha256(b@)).len() == 43);
    assert(r@.take(7) =~= "SHA256:"@);
    assert(r@.skip(7) =~= base64_text(sha256(a@)));
    if r@ == q@ {
        fingerprint_shows_digest(sha256(a@), sha256(b@));
    }
}

/// The same holds of the fingerprint that is made of a digest.
pub proof fn digest_is_written_behind_its_name(digest: &[u8], r: String)
    requires
        digest@.len() == 32,
        call_ensures(digest_fingerprint, (digest,), r),
    ensures
        r@ == "SHA256:"@ + base64_text(digest@),
{
}

} // verus!
