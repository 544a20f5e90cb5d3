//! The Secure Enclave key that Keyward holds itself.
//!
//! The private scalar never leaves the enclave. What is kept is a wrapped
//! handle that is useless on any other machine. The enclave is reached outside
//! this library, through calls that fill a buffer and return how many bytes
//! they wrote, or a code that is not positive; here stands what those answers
//! mean.

use crate::crypto::{base64_encode_padded, base64_padded};
use crate::paths::{join_path, joined_path};
use crate::text::{concat2, concat3, decimal, number, same, signed_decimal, signed_number};
use crate::wire::{string_bytes, string_is_injective, string_reads_back, take_string, Writer};
use vstd::prelude::*;
use vstd::slice::slice_subrange;
use vstd::utf8::encode_utf8;

verus! {

/// The SSH name of the kind of key.
pub const KEY_TYPE: &'static str = "ecdsa-sha2-nistp256";

/// The SSH name of the curve.
pub const CURVE: &'static str = "nistp256";

/// The size of the buffer that a public point is read into.
pub const POINT_CAP: usize = 256;

// ---------------------------------------------------------------------------
// Policies
// ---------------------------------------------------------------------------

/// What a signature costs.
#[derive(Debug, Clone, Copy, PartialEq, Eq, Structural)]
pub enum Policy {
    /// No authentication: anything that can read the handle can sign.
    NoAuth,
    /// Touch ID or password, and survives a change to enrolled fingerprints.
    UserPresence,
    /// Touch ID only; the key self-destructs if the fingerprint set changes.
    BiometryCurrentSet,
}

/// The word for a policy.
pub open spec fn policy_word(p: Policy) -> Seq<char> {
    match p {
        Policy::NoAuth => "none"@,
        Policy::UserPresence => "presence"@,
        Policy::BiometryCurrentSet => "biometry"@,
    }
}

/// The policy that a word names.
pub open spec fn policy_named(word: Seq<char>) -> Option<Policy> {
    if word == "none"@ {
        Some(Policy::NoAuth)
    } else if word == "presence"@ {
        Some(Policy::UserPresence)
    } else if word == "biometry"@ {
        Some(Policy::BiometryCurrentSet)
    } else {
        None
    }
}

impl Policy {
    /// The policy that a word names.
    pub fn parse(s: &str) -> (r: Option<Policy>)
        ensures
            r == policy_named(s@),
    {
        if same(s, "none") {
            Some(Policy::NoAuth)
        } else if same(s, "presence") {
            Some(Policy::UserPresence)
        } else if same(s, "biometry") {
            Some(Policy::BiometryCurrentSet)
        } else {
            None
        }
    }

    /// The number that the enclave knows the policy by.
    pub fn code(self) -> (n: i32)
        ensures
            n == (match self {
                Policy::NoAuth => 0i32,
                Policy::UserPresence => 1,
                Policy::BiometryCurrentSet => 2,
            }),
    {
        match self {
            Policy::NoAuth => 0,
            Policy::UserPresence => 1,
            Policy::BiometryCurrentSet => 2,
        }
    }

    /// The word for the policy.
    pub fn label(self) -> (s: &'static str)
        ensures
            s@ == policy_word(self),
    {
        match self {
            Policy::NoAuth => "none",
            Policy::UserPresence => "presence",
            Policy::BiometryCurrentSet => "biometry",
        }
    }
}

// ---------------------------------------------------------------------------
// Where the handle lives
// ---------------------------------------------------------------------------

/// Where the wrapped handle lives: in the login keychain, readable without a
/// prompt only by the daemon's own code signature, or in a file that any
/// process of the user can read.
#[derive(Debug, Clone, PartialEq, Eq)]
pub enum KeyStore {
    File(String),
    Keychain,
}

/// The file that a handle lives in where nothing else is configured, below the
/// home directory.
pub const KEY_FILE: &'static str = "Library/Application Support/Keyward/enclave-key.blob";

/// The file that a handle lives in where nothing else is configured.
pub fn default_key_path(home: &str) -> (r: String)
    ensures
        r@ == joined_path(home@, KEY_FILE@),
{
    join_path(home, KEY_FILE)
}

/// The place of the handle in words.
pub open spec fn store_text(s: KeyStore) -> Seq<char> {
    match s {
        KeyStore::File(p) => p@,
        KeyStore::Keychain => "login keychain (dev.danielsol.keyward / enclave-key)"@,
    }
}

impl KeyStore {
    /// The place that the configuration names.
    pub fn from_config(v: Option<&str>, home: &str) -> (r: KeyStore)
        ensures
            match v {
                Some(p) => if p@ == "keychain"@ {
                    r is Keychain
                } else {
                    r is File && r->File_0@ == p@
                },
                None => r is File && r->File_0@ == joined_path(home@, KEY_FILE@),
            },
    {
        match v {
            Some(p) => if same(p, "keychain") {
                KeyStore::Keychain
            } else {
                KeyStore::File(p.to_owned())
            },
            None => KeyStore::File(default_key_path(home)),
        }
    }

    /// The place in words.
    pub fn describe(&self) -> (r: String)
        ensures
            r@ == store_text(*self),
    {
        match self {
            KeyStore::File(p) => p.clone(),
            KeyStore::Keychain => "login keychain (dev.danielsol.keyward / enclave-key)".to_owned(),
        }
    }

    /// The handle that was read, out of the buffer it was read into and the
    /// number of bytes that the keychain wrote.
    pub fn read(buf: Vec<u8>, n: isize) -> (r: Option<Vec<u8>>)
        ensures
            filled(buf@, n as int) matches Some(b) ==> r is Some && r->0@ == b,
            filled(buf@, n as int) is None ==> r is None,
    {
        take_filled(buf, n)
    }
}

/// What a call left in its buffer, where it says that it wrote `n` bytes.
pub open spec fn filled(buf: Seq<u8>, n: int) -> Option<Seq<u8>> {
    if n <= 0 {
        None
    } else if n < buf.len() {
        Some(buf.take(n))
    } else {
        Some(buf)
    }
}

/// What a call left in its buffer, where it says that it wrote `n` bytes.
pub fn take_filled(buf: Vec<u8>, n: isize) -> (r: Option<Vec<u8>>)
    ensures
        filled(buf@, n as int) matches Some(b) ==> r is Some && r->0@ == b,
        filled(buf@, n as int) is None ==> r is None,
{
    if n <= 0 {
        return None;
    }
    let mut out = buf;
    out.truncate(n as usize);
    assert(filled(buf@, n as int)->0 =~= out@);
    Some(out)
}

// ---------------------------------------------------------------------------
// The key
// ---------------------------------------------------------------------------

/// The wrapped handle of a key, and its public point.
pub struct SealedKey {
    blob: Vec<u8>,
    point: Vec<u8>,
}

impl SealedKey {
    /// The wrapped handle.
    pub closed spec fn handle_bytes(&self) -> Seq<u8> {
        self.blob@
    }

    /// The uncompressed EC point.
    pub closed spec fn point_bytes(&self) -> Seq<u8> {
        self.point@
    }
}

/// The key in the enclave.
pub struct Enclave {
    pub sealed: SealedKey,
    pub comment: String,
}

/// The public key with an EC point, in SSH wire format.
pub open spec fn public_blob(point: Seq<u8>) -> Seq<u8> {
    string_bytes(encode_utf8(KEY_TYPE@)) + string_bytes(encode_utf8(CURVE@)) + string_bytes(point)
}

/// The line for `authorized_keys`.
pub open spec fn key_line(point: Seq<u8>, comment: Seq<char>) -> Seq<char> {
    KEY_TYPE@ + " "@ + base64_padded(public_blob(point)) + " "@ + comment
}

impl Enclave {
    /// The wrapped handle.
    pub open spec fn handle_bytes(&self) -> Seq<u8> {
        self.sealed.handle_bytes()
    }

    /// The uncompressed EC point.
    pub open spec fn point_bytes(&self) -> Seq<u8> {
        self.sealed.point_bytes()
    }

    /// The comment that goes with the key.
    pub open spec fn comment_text(&self) -> Seq<char> {
        self.comment@
    }

    /// There is a handle, and the point fits the buffer it is read into.
    pub open spec fn wf(&self) -> bool {
        self.handle_bytes().len() > 0 && self.point_bytes().len() <= POINT_CAP
    }

    /// The handle to open, out of what the store gave.
    pub fn openable(read: Option<Vec<u8>>) -> (r: Option<Vec<u8>>)
        ensures
            r == (if read is Some && read->0@.len() > 0 {
                read
            } else {
                None
            }),
    {
        match read {
            Some(blob) => if blob.is_empty() {
                None
            } else {
                Some(blob)
            },
            None => None,
        }
    }

    /// The key with the handle `blob`, out of the buffer that its public point
    /// was read into and the number of bytes that the enclave wrote.
    pub fn load(blob: Vec<u8>, point: Vec<u8>, n: isize, comment: String) -> (r: Option<Enclave>)
        requires
            point@.len() <= POINT_CAP,
        ensures
            r is Some <==> blob@.len() > 0 && n > 0,
            r matches Some(e) ==> {
                &&& e.wf()
                &&& e.handle_bytes() == blob@
                &&& Some(e.point_bytes()) == filled(point@, n as int)
                &&& e.comment_text() == comment@
            },
    {
        if blob.is_empty() {
            return None;
        }
        match take_filled(point, n) {
            Some(point) => Some(Enclave { sealed: SealedKey { blob, point }, comment }),
            None => None,
        }
    }

    /// The wrapped handle.
    pub fn handle(&self) -> (r: &[u8])
        ensures
            r@ == self.handle_bytes(),
    {
        self.sealed.blob.as_slice()
    }

    /// The comment that goes with the key.
    pub fn comment_str(&self) -> (r: &str)
        ensures
            r@ == self.comment_text(),
    {
        self.comment.as_str()
    }

    /// The public key in SSH wire format: the kind of key, the curve, the point.
    pub fn ssh_public_blob(&self) -> (r: Vec<u8>)
        ensures
            r@ == public_blob(self.point_bytes()),
    {
        let mut w = Writer::new();
        w.string(KEY_TYPE.as_bytes());
        w.string(CURVE.as_bytes());
        w.string(self.sealed.point.as_slice());
        assert(w@ =~= public_blob(self.point_bytes()));
        w.buf
    }

    /// The line for `authorized_keys`.
    pub fn authorized_key_line(&self) -> (r: String)
        requires
            self.wf(),
        ensures
            r@ == key_line(self.point_bytes(), self.comment_text()),
    {
        let blob = self.ssh_public_blob();
        proof {
            lemma_names();
            assert(blob@.len() < 400);
        }
        let encoded = base64_encode_padded(blob.as_slice());
        let mut line = concat3(KEY_TYPE, " ", encoded.as_str());
        line.append(" ");
        line.append(self.comment.as_str());
        line
    }

    /// The signature in SSH wire format, out of the buffer that the enclave
    /// filled and the number it returned, or why there is none.
    pub fn sign(n: isize, sig: Vec<u8>) -> (r: Result<Vec<u8>, String>)
        ensures
            match signature_answer(n as int, sig@) {
                Ok(s) => r is Ok && r->Ok_0@ == s,
                Err(e) => r is Err && r->Err_0@ == e,
            },
    {
        if n == -3 {
            return Err("declined or authentication failed".to_owned());
        }
        match take_filled(sig, n) {
            None => {
                let code = signed_number(n as i64);
                Err(concat3("enclave signing failed (code ", code.as_str(), ")"))
            },
            Some(sig) => {
                if sig.len() != 64 {
                    let len = number(sig.len() as u128);
                    return Err(concat2("unexpected signature length ", len.as_str()));
                }
                let r = slice_subrange(sig.as_slice(), 0, 32);
                let s = slice_subrange(sig.as_slice(), 32, 64);
                assert(r@ =~= sig@.take(32));
                assert(s@ =~= sig@.skip(32));
                Ok(ssh_ecdsa_signature(r, s))
            },
        }
    }
}

/// What an answer of the enclave to a request to sign amounts to.
pub open spec fn signature_answer(n: int, sig: Seq<u8>) -> Result<Seq<u8>, Seq<char>> {
    if n == -3 {
        Err("declined or authentication failed"@)
    } else {
        match filled(sig, n) {
            None => Err("enclave signing failed (code "@ + signed_decimal(n) + ")"@),
            Some(raw) => if raw.len() != 64 {
                Err("unexpected signature length "@ + decimal(raw.len()))
            } else {
                Ok(ecdsa_signature(raw.take(32), raw.skip(32)))
            },
        }
    }
}

proof fn lemma_names()
    ensures
        encode_utf8(KEY_TYPE@).len() == 19,
        encode_utf8(CURVE@).len() == 8,
{
    reveal_strlit("ecdsa-sha2-nistp256");
    reveal_strlit("nistp256");
    vstd::utf8::is_ascii_chars_encode_utf8(KEY_TYPE@);
    vstd::utf8::is_ascii_chars_encode_utf8(CURVE@);
}

// ---------------------------------------------------------------------------
// Signatures
// ---------------------------------------------------------------------------

/// `v` without the zeros it begins with.
pub open spec fn strip_zeros(v: Seq<u8>) -> Seq<u8>
    decreases v.len(),
{
    if v.len() > 0 && v[0] == 0 {
        strip_zeros(v.skip(1))
    } else {
        v
    }
}

/// A big-endian number that is not negative as a two's-complement number in the
/// fewest bytes.
pub open spec fn mpint_bytes(v: Seq<u8>) -> Seq<u8> {
    let t = strip_zeros(v);
    if t.len() > 0 && t[0] >= 0x80 {
        seq![0u8] + t
    } else {
        t
    }
}

/// A two's-complement big integer: the leading zeros go, and one comes back
/// where the top bit is set, so that the value is never read as negative.
pub fn mpint(v: &[u8]) -> (out: Vec<u8>)
    ensures
        out@ == mpint_bytes(v@),
{
    let mut first: usize = 0;
    assert(v@.skip(0) =~= v@);
    while first < v.len() && v[first] == 0
        invariant
            0 <= first <= v@.len(),
            strip_zeros(v@.skip(first as int)) == strip_zeros(v@),
        decreases v@.len() - first,
    {
        assert(v@.skip(first as int).skip(1) =~= v@.skip(first + 1));
        first = first + 1;
    }
    let mut out: Vec<u8> = Vec::new();
    if first == v.len() {
        assert(out@ =~= v@.skip(first as int));
        return out;
    }
    if v[first] >= 0x80 {
        out.push(0);
    }
    let ghost head = out@;
    out.extend_from_slice(slice_subrange(v, first, v.len()));
    assert(out@ =~= head + v@.skip(first as int));
    assert(out@ =~= mpint_bytes(v@));
    out
}

/// An ECDSA signature in SSH wire format: the kind of key, then the two numbers
/// as one string.
pub open spec fn ecdsa_signature(r: Seq<u8>, s: Seq<u8>) -> Seq<u8> {
    string_bytes(encode_utf8(KEY_TYPE@)) + string_bytes(
        string_bytes(mpint_bytes(r)) + string_bytes(mpint_bytes(s)),
    )
}

/// An ECDSA signature in SSH wire format.
pub fn ssh_ecdsa_signature(r: &[u8], s: &[u8]) -> (out: Vec<u8>)
    ensures
        out@ == ecdsa_signature(r@, s@),
{
    let mut inner = Writer::new();
    inner.string(mpint(r).as_slice());
    inner.string(mpint(s).as_slice());
    assert(inner@ =~= string_bytes(mpint_bytes(r@)) + string_bytes(mpint_bytes(s@)));

    let mut out = Writer::new();
    out.string(KEY_TYPE.as_bytes());
    out.string(inner.buf.as_slice());
    assert(out@ =~= ecdsa_signature(r@, s@));
    out.buf
}

// ---------------------------------------------------------------------------
// Making a key
// ---------------------------------------------------------------------------

/// What happened on the way to a new key.
pub enum GenerateEvent {
    /// Whether this machine has an enclave.
    Availability(bool),
    /// Whether the store holds a key already.
    Existing(bool),
    /// What the enclave wrote, and the number it returned.
    Created(Vec<u8>, isize),
    /// How writing the handle to a file went.
    Written(Result<(), String>),
    /// What the keychain returned for the handle.
    Kept(i32),
}

/// What to do next on the way to a new key.
pub enum GenerateAction {
    /// See whether the store holds a key already.
    LookForKey,
    /// Have the enclave make a key under the policy with this number.
    Create(i32),
    /// Write the handle to this file, for the user alone.
    WriteFile(String, Vec<u8>),
    /// Put the handle into the keychain, over an existing one if the flag says
    /// so.
    Keep(Vec<u8>, bool),
    /// The key is made.
    Finished,
    /// No key is made, and this is why.
    Refuse(String),
}

/// Why a key is not overwritten.
pub open spec fn overwrite_text(store: KeyStore) -> Seq<char> {
    store_text(store)
        + " already holds a key. Overwriting destroys the existing key permanently \u{2014} it cannot be exported or restored. Pass --force only if you have already rotated away from it."@
}

/// What to do next on the way to a new key.
pub open spec fn generate_next(
    store: KeyStore,
    policy: Policy,
    force: bool,
    event: GenerateEvent,
    action: GenerateAction,
) -> bool {
    match event {
        GenerateEvent::Availability(there) => if there {
            action is LookForKey
        } else {
            refuses(action, "no Secure Enclave on this machine"@)
        },
        GenerateEvent::Existing(there) => if there && !force {
            refuses(action, overwrite_text(store))
        } else {
            action matches GenerateAction::Create(n) && n == (match policy {
                Policy::NoAuth => 0int,
                Policy::UserPresence => 1,
                Policy::BiometryCurrentSet => 2,
            })
        },
        GenerateEvent::Created(buf, n) => match filled(buf@, n as int) {
            None => refuses(
                action,
                "enclave key generation failed (code "@ + signed_decimal(n as int) + ")"@,
            ),
            Some(handle) => match store {
                KeyStore::File(path) => action matches GenerateAction::WriteFile(p, b) && p@
                    == path@ && b@ == handle,
                KeyStore::Keychain => action matches GenerateAction::Keep(b, over) && b@ == handle
                    && over == force,
            },
        },
        GenerateEvent::Written(done) => match done {
            Ok(_) => action is Finished,
            Err(e) => refuses(action, e@),
        },
        GenerateEvent::Kept(rc) => if rc == 0 {
            action is Finished
        } else {
            refuses(action, "keychain store failed (code "@ + signed_decimal(rc as int) + ")"@)
        },
    }
}

/// The action gives up, with this text.
pub open spec fn refuses(action: GenerateAction, why: Seq<char>) -> bool {
    action matches GenerateAction::Refuse(s) && s@ == why
}

/// What to do next on the way to a new key.
///
/// An existing key is never overwritten unasked: an enclave key cannot be
/// exported or backed up, so overwriting it destroys it beyond recovery.
pub fn generate(
    store: &KeyStore,
    policy: Policy,
    force: bool,
    event: GenerateEvent,
) -> (action: GenerateAction)
    ensures
        generate_next(*store, policy, force, event, action),
{
    match event {
        GenerateEvent::Availability(there) => if there {
            GenerateAction::LookForKey
        } else {
            GenerateAction::Refuse("no Secure Enclave on this machine".to_owned())
        },
        GenerateEvent::Existing(there) => if there && !force {
            GenerateAction::Refuse(
                concat2(
                    store.describe().as_str(),
                    " already holds a key. Overwriting destroys the existing key permanently \u{2014} it cannot be exported or restored. Pass --force only if you have already rotated away from it.",
                ),
            )
        } else {
            GenerateAction::Create(policy.code())
        },
        GenerateEvent::Created(buf, n) => match take_filled(buf, n) {
            None => {
                let code = signed_number(n as i64);
                GenerateAction::Refuse(
                    concat3("enclave key generation failed (code ", code.as_str(), ")"),
                )
            },
            Some(handle) => match store {
                KeyStore::File(path) => GenerateAction::WriteFile(path.clone(), handle),
                KeyStore::Keychain => GenerateAction::Keep(handle, force),
            },
        },
        GenerateEvent::Written(done) => match done {
            Ok(_) => GenerateAction::Finished,
            Err(e) => GenerateAction::Refuse(e),
        },
        GenerateEvent::Kept(rc) => if rc == 0 {
            GenerateAction::Finished
        } else {
            let code = signed_number(rc as i64);
            GenerateAction::Refuse(concat3("keychain store failed (code ", code.as_str(), ")"))
        },
    }
}

// ---------------------------------------------------------------------------
// Laws
// ---------------------------------------------------------------------------

/// The enclave is asked for a key only once it is known that the store holds
/// none, or that the one it holds may go.
pub proof fn existing_key_is_kept(
    store: KeyStore,
    policy: Policy,
    force: bool,
    event: GenerateEvent,
    action: GenerateAction,
)
    requires
        generate_next(store, policy, force, event, action),
        action is Create,
    ensures
        event matches GenerateEvent::Existing(there) && (there ==> force),
{
}

/// A word names a policy just where it is the word for it.
pub proof fn policy_words_name(word: Seq<char>, p: Policy)
    ensures
        policy_named(word) == Some(p) <==> word == policy_word(p),
{
    reveal_strlit("none");
    reveal_strlit("presence");
    reveal_strlit("biometry");
    assert("none"@[0] == 'n');
    assert("presence"@[0] == 'p');
    assert("biometry"@[0] == 'b');
}

/// The number that bytes stand for, most significant first.
pub open spec fn value(v: Seq<u8>) -> nat
    decreases v.len(),
{
    if v.len() == 0 {
        0
    } else {
        value(v.drop_last()) * 256 + v.last() as nat
    }
}

proof fn lemma_value_prefix(b: u8, v: Seq<u8>)
    requires
        b == 0,
    ensures
        value(seq![b] + v) == value(v),
    decreases v.len(),
{
    let w = seq![b] + v;
    if v.len() == 0 {
        assert(w.drop_last() =~= seq![]);
        assert(value(w.drop_last()) == 0);
    } else {
        lemma_value_prefix(b, v.drop_last());
        assert(w.drop_last() =~= seq![b] + v.drop_last());
    }
}

proof fn lemma_strip_zeros(v: Seq<u8>)
    ensures
        value(strip_zeros(v)) == value(v),
        strip_zeros(v).len() <= v.len(),
        strip_zeros(v).len() > 0 ==> strip_zeros(v)[0] != 0,
    decreases v.len(),
{
    if v.len() > 0 && v[0] == 0 {
        lemma_strip_zeros(v.skip(1));
        lemma_value_prefix(v[0], v.skip(1));
        assert(seq![v[0]] + v.skip(1) =~= v);
    }
}

/// Writing a number as a two's-complement number keeps its value, sets no sign
/// bit, and wastes no byte.
pub proof fn mpint_keeps_value(v: Seq<u8>)
    ensures
        value(mpint_bytes(v)) == value(v),
        mpint_bytes(v).len() <= v.len() + 1,
        mpint_bytes(v).len() > 0 ==> mpint_bytes(v)[0] < 0x80,
        mpint_bytes(v).len() > 0 && mpint_bytes(v)[0] == 0 ==> mpint_bytes(v).len() > 1
            && mpint_bytes(v)[1] >= 0x80,
{
    lemma_strip_zeros(v);
    lemma_value_prefix(0, strip_zeros(v));
}

proof fn lemma_same_value(a: Seq<u8>, b: Seq<u8>)
    requires
        a.len() == b.len(),
        value(a) == value(b),
    ensures
        a == b,
    decreases a.len(),
{
    if a.len() > 0 {
        assert(value(a.drop_last()) == value(b.drop_last()) && a.last() == b.last());
        lemma_same_value(a.drop_last(), b.drop_last());
        assert(a =~= a.drop_last().push(a.last()));
        assert(b =~= b.drop_last().push(b.last()));
    } else {
        assert(a =~= b);
    }
}

/// A number without leading zeros is at least 256 to the number of its lesser
/// bytes, and less than 256 to the number of its bytes.
proof fn lemma_value_bounds(v: Seq<u8>)
    ensures
        value(v) < power256(v.len()),
        v.len() > 0 && v[0] != 0 ==> value(v) >= power256((v.len() - 1) as nat),
    decreases v.len(),
{
    if v.len() > 0 {
        let w = v.drop_last();
        lemma_value_bounds(w);
        assert(power256(v.len()) == 256 * power256((v.len() - 1) as nat));
        if v.len() > 1 && v[0] != 0 {
            assert(w[0] == v[0]);
            assert(power256((v.len() - 1) as nat) == 256 * power256((v.len() - 2) as nat));
        }
    }
}

spec fn power256(n: nat) -> nat
    decreases n,
{
    if n == 0 {
        1
    } else {
        256 * power256((n - 1) as nat)
    }
}

proof fn lemma_power256_grows(a: nat, b: nat)
    requires
        a <= b,
    ensures
        power256(a) <= power256(b),
    decreases b,
{
    if a < b {
        lemma_power256_grows(a, (b - 1) as nat);
    }
}

/// Numbers of the same value are written the same, however many zeros they
/// began with.
pub proof fn mpint_is_canonical(a: Seq<u8>, b: Seq<u8>)
    requires
        value(a) == value(b),
    ensures
        mpint_bytes(a) == mpint_bytes(b),
{
    let x = strip_zeros(a);
    let y = strip_zeros(b);
    lemma_strip_zeros(a);
    lemma_strip_zeros(b);
    lemma_value_bounds(x);
    lemma_value_bounds(y);
    if x.len() < y.len() {
        lemma_power256_grows(x.len(), (y.len() - 1) as nat);
    } else if y.len() < x.len() {
        lemma_power256_grows(y.len(), (x.len() - 1) as nat);
    }
    lemma_same_value(x, y);
}

/// A signature is read back as the kind of key and two numbers, which have the
/// values of the two that were signed with.
pub proof fn signature_reads_back(r: Seq<u8>, s: Seq<u8>)
    requires
        r.len() == 32,
        s.len() == 32,
    ensures
        ({
            let inner = string_bytes(mpint_bytes(r)) + string_bytes(mpint_bytes(s));
            &&& take_string(ecdsa_signature(r, s)) == Some(
                (encode_utf8(KEY_TYPE@), string_bytes(inner)),
            )
            &&& take_string(string_bytes(inner)) == Some((inner, Seq::<u8>::empty()))
            &&& take_string(inner) == Some((mpint_bytes(r), string_bytes(mpint_bytes(s))))
            &&& take_string(string_bytes(mpint_bytes(s))) == Some(
                (mpint_bytes(s), Seq::<u8>::empty()),
            )
        }),
        value(mpint_bytes(r)) == value(r),
        value(mpint_bytes(s)) == value(s),
{
    lemma_names();
    mpint_keeps_value(r);
    mpint_keeps_value(s);
    let inner = string_bytes(mpint_bytes(r)) + string_bytes(mpint_bytes(s));
    string_reads_back(encode_utf8(KEY_TYPE@), string_bytes(inner));
    string_reads_back(inner, seq![]);
    assert(string_bytes(inner) + seq![] =~= string_bytes(inner));
    string_reads_back(mpint_bytes(r), string_bytes(mpint_bytes(s)));
    string_reads_back(mpint_bytes(s), seq![]);
    assert(string_bytes(mpint_bytes(s)) + seq![] =~= string_bytes(mpint_bytes(s)));
}

/// Two keys with the same public blob have the same point.
pub proof fn public_blob_shows_point(p: Seq<u8>, q: Seq<u8>)
    requires
        public_blob(p) == public_blob(q),
    ensures
        p == q,
{
    let head = string_bytes(encode_utf8(KEY_TYPE@)) + string_bytes(encode_utf8(CURVE@));
    assert(string_bytes(p) =~= public_blob(p).skip(head.len() as int));
    assert(string_bytes(q) =~= public_blob(q).skip(head.len() as int));
    string_is_injective(p, q);
}

/// A call that wrote nothing leaves nothing, and one that wrote leaves as many
/// bytes of its buffer as it says, or all of them.
pub proof fn buffer_is_cut(buf: Vec<u8>, n: isize, r: Option<Vec<u8>>, q: Option<Vec<u8>>)
    requires
        call_ensures(take_filled, (buf, n), r),
        call_ensures(KeyStore::read, (buf, n), q),
    ensures
        r is Some <==> n > 0,
        q is Some <==> n > 0,
        n > 0 && n <= buf@.len() ==> r->0@ == buf@.subrange(0, n as int),
        n > buf@.len() ==> r->0@ == buf@,
        n > 0 ==> q->0@ == r->0@,
{
    if n > 0 && n <= buf@.len() {
        assert(r->0@ =~= buf@.subrange(0, n as int));
    }
}

/// A key is opened just where there is a handle and the enclave gave a point for
/// it, and then it has that handle, that point and its comment.
pub proof fn key_is_as_read(
    blob: Vec<u8>,
    point: Vec<u8>,
    n: isize,
    comment: String,
    r: Option<Enclave>,
    cut: Option<Vec<u8>>,
    handle: &[u8],
    words: &str,
)
    requires
        point@.len() <= 256,
        call_ensures(Enclave::load, (blob, point, n, comment), r),
        call_ensures(take_filled, (point, n), cut),
        r is Some ==> call_ensures(Enclave::handle, (&r->0,), handle) && call_ensures(
            Enclave::comment_str,
            (&r->0,),
            words,
        ),
    ensures
        r is Some <==> blob@.len() > 0 && n > 0,
        r is Some ==> {
            &&& handle@ == blob@
            &&& words@ == comment@
            &&& r->0.comment@ == comment@
            &&& cut is Some && r->0.point_bytes() == cut->0@
            &&& r->0.wf()
        },
{
}

/// A handle is opened just where the store gave one that is not empty.
pub proof fn empty_handle_is_none(read: Option<Vec<u8>>, r: Option<Vec<u8>>)
    requires
        call_ensures(Enclave::openable, (read,), r),
    ensures
        r is Some <==> read is Some && read->0@.len() > 0,
        r is Some ==> r->0@ == read->0@,
{
}

/// The public key is read as the kind of key, the curve and the point, and nothing
/// else.
pub proof fn public_key_reads_back(e: &Enclave, r: Vec<u8>)
    requires
        e.wf(),
        call_ensures(Enclave::ssh_public_blob, (e,), r),
    ensures
        take_string(r@) matches Some((kind, rest)) && kind == encode_utf8("ecdsa-sha2-nistp256"@)
            && (take_string(rest) matches Some((curve, tail)) && curve == encode_utf8("nistp256"@)
            && take_string(tail) == Some((e.point_bytes(), Seq::<u8>::empty()))),
{
    lemma_names();
    let point = e.point_bytes();
    let kind = encode_utf8(KEY_TYPE@);
    let curve = encode_utf8(CURVE@);
    let tail = string_bytes(point);
    let rest = string_bytes(curve) + tail;
    assert(r@ =~= string_bytes(kind) + rest);
    string_reads_back(kind, rest);
    string_reads_back(curve, tail);
    string_reads_back(point, seq![]);
    assert(tail + seq![] =~= tail);
}

/// The line for `authorized_keys` holds the kind of key, the public key in base64
/// and the comment, with a space between.
pub proof fn key_line_holds_the_key(e: &Enclave, blob: Vec<u8>, line: String)
    requires
        e.wf(),
        call_ensures(Enclave::ssh_public_blob, (e,), blob),
        call_ensures(Enclave::authorized_key_line, (e,), line),
    ensures
        line@ == "ecdsa-sha2-nistp256"@ + seq![' '] + base64_padded(blob@) + seq![' ']
            + e.comment@,
{
    reveal_strlit(" ");
    assert(" "@ =~= seq![' ']);
}

/// A number is written as a two's-complement number of the same value, in the
/// fewest bytes and without a sign.
pub proof fn number_is_written_minimal(v: &[u8], out: Vec<u8>)
    requires
        call_ensures(mpint, (v,), out),
    ensures
        value(out@) == value(v@),
        out@.len() > 0 ==> out@[0] < 0x80,
        out@.len() > 1 && out@[0] == 0 ==> out@[1] >= 0x80,
        out@.len() == 1 ==> out@[0] != 0,
{
    mpint_keeps_value(v@);
}

/// A signature is read as the kind of key and the two numbers that the enclave
/// gave, each as it is written.
pub proof fn signature_holds_both_numbers(
    r: &[u8],
    s: &[u8],
    out: Vec<u8>,
    first: Vec<u8>,
    second: Vec<u8>,
)
    requires
        r@.len() == 32,
        s@.len() == 32,
        call_ensures(ssh_ecdsa_signature, (r, s), out),
        call_ensures(mpint, (r,), first),
        call_ensures(mpint, (s,), second),
    ensures
        take_string(out@) matches Some((kind, rest)) && kind == encode_utf8("ecdsa-sha2-nistp256"@)
            && (take_string(rest) matches Some((inner, end)) && end.len() == 0 && (take_string(
            inner,
        ) matches Some((a, more)) && a == first@ && take_string(more) == Some(
            (second@, Seq::<u8>::empty()),
        ))),
{
    signature_reads_back(r@, s@);
}

/// What the enclave gave is a signature just where it is 64 bytes long, and then
/// it is that of its two halves; else it is said why there is none.
pub proof fn enclave_answer_is_read(
    n: isize,
    sig: Vec<u8>,
    out: Result<Vec<u8>, String>,
    cut: Option<Vec<u8>>,
    r: &[u8],
    s: &[u8],
    whole: Vec<u8>,
    code: String,
    length: u128,
    digits: String,
)
    requires
        call_ensures(Enclave::sign, (n, sig), out),
        call_ensures(take_filled, (sig, n), cut),
        cut is Some && cut->0@.len() == 64 ==> r@ == cut->0@.subrange(0, 32) && s@
            == cut->0@.subrange(32, 64),
        call_ensures(ssh_ecdsa_signature, (r, s), whole),
        call_ensures(signed_number, (n as i64,), code),
        cut is Some ==> length == cut->0@.len(),
        call_ensures(number, (length,), digits),
    ensures
        out is Ok <==> cut is Some && cut->0@.len() == 64,
        out matches Ok(b) ==> b@ == whole@,
        n == -3 ==> (out matches Err(e) && e@ == "declined or authentication failed"@),
        n <= 0 && n != -3 ==> (out matches Err(e) && e@ == "enclave signing failed (code "@ + code@
            + ")"@),
        cut is Some && cut->0@.len() != 64 ==> (out matches Err(e) && e@
            == "unexpected signature length "@ + digits@),
{
    if cut is Some && cut->0@.len() == 64 {
        assert(cut->0@.take(32) =~= r@);
        assert(cut->0@.skip(32) =~= s@);
    }
}

/// A policy is the one that its own word names, and is known to the enclave by a
/// number of its own.
pub proof fn policy_goes_by_word_and_number(
    p: Policy,
    word: &'static str,
    text: &str,
    named: Option<Policy>,
    n: i32,
)
    requires
        call_ensures(Policy::label, (p,), word),
        call_ensures(Policy::parse, (text,), named),
        call_ensures(Policy::code, (p,), n),
    ensures
        named == Some(p) <==> text@ == word@,
        word@ == (match p {
            Policy::NoAuth => "none"@,
            Policy::UserPresence => "presence"@,
            Policy::BiometryCurrentSet => "biometry"@,
        }),
        n == (match p {
            Policy::NoAuth => 0int,
            Policy::UserPresence => 1,
            Policy::BiometryCurrentSet => 2,
        }),
        named is None <==> text@ != "none"@ && text@ != "presence"@ && text@ != "biometry"@,
{
    policy_words_name(text@, p);
}

/// The handle lives in the keychain just where that is configured, else in the
/// file that is, and in one below the home directory where nothing is.
pub proof fn store_is_as_configured(
    text: &str,
    home: &str,
    s: KeyStore,
    d: KeyStore,
    words: String,
    path: String,
)
    requires
        call_ensures(KeyStore::from_config, (Some(text), home), s),
        call_ensures(KeyStore::from_config, (None, home), d),
        call_ensures(KeyStore::describe, (&s,), words),
        call_ensures(default_key_path, (home,), path),
        home@.len() > 0,
        home@.last() != '/',
    ensures
        s is Keychain <==> text@ == "keychain"@,
        !(s is Keychain) ==> s->File_0@ == text@ && words@ == text@,
        s is Keychain ==> words@ == "login keychain (dev.danielsol.keyward / enclave-key)"@,
        d is File && d->File_0@ == path@,
        path@ == home@ + seq!['/'] + "Library/Application Support/Keyward/enclave-key.blob"@,
{
    reveal_strlit("/");
    reveal_strlit("Library/Application Support/Keyward/enclave-key.blob");
    assert("/"@ =~= seq!['/']);
}

/// A key is made only on a machine that has an enclave, and over an existing key
/// only where that is forced; the enclave is told the policy, and no other.
pub proof fn making_a_key_begins_safely(
    store: &KeyStore,
    policy: Policy,
    force: bool,
    there: bool,
    held: bool,
    begun: GenerateAction,
    asked: GenerateAction,
    n: i32,
    place: String,
)
    requires
        call_ensures(generate, (store, policy, force, GenerateEvent::Availability(there)), begun),
        call_ensures(generate, (store, policy, force, GenerateEvent::Existing(held)), asked),
        call_ensures(Policy::code, (policy,), n),
        call_ensures(KeyStore::describe, (store,), place),
    ensures
        there ==> begun is LookForKey,
        !there ==> (begun matches GenerateAction::Refuse(why) && why@
            == "no Secure Enclave on this machine"@),
        held && !force ==> (asked matches GenerateAction::Refuse(why) && why@ == place@
            + " already holds a key. Overwriting destroys the existing key permanently \u{2014} it cannot be exported or restored. Pass --force only if you have already rotated away from it."@),
        !held || force ==> (asked matches GenerateAction::Create(m) && m == n),
{
}

/// What the enclave made is kept whole in the place that is configured, and a step
/// that fails ends it with the reason.
pub proof fn made_key_is_kept(
    store: &KeyStore,
    policy: Policy,
    force: bool,
    buf: Vec<u8>,
    n: isize,
    cut: Option<Vec<u8>>,
    code: String,
    made: GenerateAction,
    done: Result<(), String>,
    written: GenerateAction,
    rc: i32,
    number: String,
    kept: GenerateAction,
)
    requires
        call_ensures(generate, (store, policy, force, GenerateEvent::Created(buf, n)), made),
        call_ensures(take_filled, (buf, n), cut),
        call_ensures(signed_number, (n as i64,), code),
        call_ensures(generate, (store, policy, force, GenerateEvent::Written(done)), written),
        call_ensures(generate, (store, policy, force, GenerateEvent::Kept(rc)), kept),
        call_ensures(signed_number, (rc as i64,), number),
    ensures
        cut is None ==> (made matches GenerateAction::Refuse(why) && why@
            == "enclave key generation failed (code "@ + code@ + ")"@),
        cut is Some ==> match *store {
            KeyStore::File(path) => made matches GenerateAction::WriteFile(p, b) && p@ == path@
                && b@ == cut->0@,
            KeyStore::Keychain => made matches GenerateAction::Keep(b, over) && b@ == cut->0@
                && over == force,
        },
        done is Ok ==> written is Finished,
        done matches Err(e) ==> (written matches GenerateAction::Refuse(why) && why@ == e@),
        rc == 0 ==> kept is Finished,
        rc != 0 ==> (kept matches GenerateAction::Refuse(why) && why@
            == "keychain store failed (code "@ + number@ + ")"@),
{
}

} // verus!
