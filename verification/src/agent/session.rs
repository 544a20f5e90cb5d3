//! The course of a connection.

use super::identities::{answer_bytes, identities_bytes, IdentityView};
use super::{failure, EXTENSION, FAILURE, IDENTITIES_ANSWER, REQUEST_IDENTITIES, SIGN_REQUEST};
use crate::text::{concat2, concat3, decimal, number, opt};
use crate::wire::{
    be32, be32_value, frame, framed, number_at, number_reads_back, take_u32, take_u8, Reader,
    U32_RANGE,
};
use vstd::prelude::*;

verus! {

/// The longest message that is read.
pub const MAX_MSG: u32 = 0x10_0000;

/// The most connections that are served at a time.
pub const MAX_CONNS: usize = 512;

/// Whether one more connection is served, besides `open` others.
pub fn admits(open: usize) -> (r: bool)
    ensures
        r <==> open < MAX_CONNS,
{
    open < MAX_CONNS
}

/// Why a connection could not be read or written.
pub enum Lost {
    /// The stream ended early, in these words.
    Ended(String),
    /// Anything else, and this is why.
    Failed(String),
}

/// What happened on a connection.
pub enum ServeEvent {
    /// The four bytes in front of a message were read.
    Header([u8; 4]),
    /// The four bytes in front of a message could not be read.
    NoHeader(Lost),
    /// A message was read.
    Payload(Vec<u8>),
    /// A message that was announced could not be read.
    NoPayload(Lost),
    /// A message was worked on, with this answer.
    Answer(Vec<u8>),
    /// An answer could not be sent.
    NotSent(Lost),
}

/// What to do next on a connection.
pub enum ServeAction {
    /// Read a message of so many bytes.
    Read(usize),
    /// List the keys.
    ListIdentities,
    /// Work on this request to sign.
    Sign(Vec<u8>),
    /// Work on this extension.
    Extend(Vec<u8>),
    /// Send these bytes, then wait for the next message.
    Send(Vec<u8>),
    /// End the connection: the client is done, or talks nonsense.
    Close,
    /// End the connection, which was lost.
    Abort(Lost),
}

/// A message of so many bytes is read.
pub open spec fn readable(n: int) -> bool {
    0 < n <= MAX_MSG
}

/// What to do next on a connection.
pub open spec fn serve_next(event: ServeEvent, action: ServeAction) -> bool {
    match event {
        ServeEvent::Header(h) => if readable(be32_value(h@) as int) {
            action matches ServeAction::Read(n) && n == be32_value(h@)
        } else {
            action is Close
        },
        ServeEvent::Payload(p) => if p@[0] == REQUEST_IDENTITIES {
            action is ListIdentities
        } else if p@[0] == SIGN_REQUEST {
            action == ServeAction::Sign(p)
        } else if p@[0] == EXTENSION {
            action == ServeAction::Extend(p)
        } else {
            action matches ServeAction::Send(b) && b@ == framed(seq![FAILURE])
        },
        ServeEvent::Answer(reply) => action matches ServeAction::Send(b) && b@ == framed(reply@),
        ServeEvent::NoHeader(lost) => match lost {
            Lost::Ended(_) => action is Close,
            Lost::Failed(_) => action == ServeAction::Abort(lost),
        },
        ServeEvent::NoPayload(lost) => action == ServeAction::Abort(lost),
        ServeEvent::NotSent(lost) => action == ServeAction::Abort(lost),
    }
}

/// What to do next on a connection.
///
/// A message that is empty or too long ends the connection; one of a kind that
/// is not known is answered with a failure. A stream that ends where a message
/// would begin has come to its end; anywhere else it was lost.
pub fn serve(event: ServeEvent) -> (action: ServeAction)
    requires
        event matches ServeEvent::Payload(p) ==> p@.len() > 0,
    ensures
        serve_next(event, action),
{
    match event {
        ServeEvent::Header(h) => {
            let n: u32 = number_at(h.as_slice(), 0);
            assert(h@.subrange(0, 4) =~= h@);
            if n == 0 || n > MAX_MSG {
                ServeAction::Close
            } else {
                ServeAction::Read(n as usize)
            }
        },
        ServeEvent::Payload(p) => {
            let kind: u8 = p[0];
            if kind == REQUEST_IDENTITIES {
                ServeAction::ListIdentities
            } else if kind == SIGN_REQUEST {
                ServeAction::Sign(p)
            } else if kind == EXTENSION {
                ServeAction::Extend(p)
            } else {
                ServeAction::Send(frame(failure().as_slice()))
            }
        },
        ServeEvent::Answer(reply) => ServeAction::Send(frame(reply.as_slice())),
        ServeEvent::NoHeader(lost) => match lost {
            Lost::Ended(_) => ServeAction::Close,
            Lost::Failed(why) => ServeAction::Abort(Lost::Failed(why)),
        },
        ServeEvent::NoPayload(lost) => ServeAction::Abort(lost),
        ServeEvent::NotSent(lost) => ServeAction::Abort(lost),
    }
}

/// What the daemon says of a connection that was lost: nothing where the stream
/// ended early.
pub fn farewell(lost: Lost) -> (r: Option<String>)
    ensures
        opt(r) == (match lost {
            Lost::Ended(_) => None,
            Lost::Failed(why) => Some("keywardd: connection ended: "@ + why@),
        }),
{
    match lost {
        Lost::Ended(_) => None,
        Lost::Failed(why) => Some(concat2("keywardd: connection ended: ", why.as_str())),
    }
}

// ---------------------------------------------------------------------------
// Health
// ---------------------------------------------------------------------------

/// The number of keys in an answer to a health probe, where it is the answer of
/// a working agent.
pub open spec fn keys_reported(body: Seq<u8>) -> Option<u32> {
    match take_u8(body) {
        Some((kind, rest)) => match take_u32(rest) {
            Some((n, _)) => if kind == IDENTITIES_ANSWER {
                Some(n)
            } else {
                None
            },
            None => None,
        },
        None => None,
    }
}

/// How a health probe went.
pub enum Probe {
    /// Nobody could be reached, and this is why.
    Unreachable(String),
    /// No limit could be set on how long it takes.
    Unbounded,
    /// The request could not be sent.
    Unsent,
    /// There was no answer within this time, and this is why.
    Silent(String, String),
    /// The answer broke off.
    Truncated,
    /// This was the answer.
    Answered(Vec<u8>),
}

/// What a health probe comes to.
pub struct Verdict {
    /// The exit code of the program.
    pub code: i32,
    /// What it says, if anything: on standard output where the code is 0, else
    /// on standard error.
    pub message: Option<String>,
}

/// What a health probe of the socket `path` comes to.
pub open spec fn verdict_text(path: Seq<char>, probe: Probe) -> Option<Seq<char>> {
    match probe {
        Probe::Unreachable(why) => Some("unhealthy: cannot connect to "@ + path + ": "@ + why@),
        Probe::Unbounded => None,
        Probe::Unsent => Some("unhealthy: write failed"@),
        Probe::Silent(limit, why) => Some(
            "unhealthy: no answer within "@ + limit@ + ": "@ + why@,
        ),
        Probe::Truncated => Some("unhealthy: truncated answer"@),
        Probe::Answered(body) => match keys_reported(body@) {
            Some(n) => Some("healthy: "@ + decimal(n as nat) + " keys"@),
            None => Some("unhealthy: unexpected reply"@),
        },
    }
}

/// The daemon answered the probe with a list of keys.
pub open spec fn healthy(probe: Probe) -> bool {
    probe matches Probe::Answered(body) && keys_reported(body@) is Some
}

/// The number of keys in an answer to a health probe, where it is the answer of
/// a working agent.
pub fn read_health(body: &[u8]) -> (r: Option<u32>)
    ensures
        r == keys_reported(body@),
{
    let mut rd = Reader::new(body);
    match rd.u8() {
        Some(kind) => match rd.u32() {
            Some(n) => if kind == IDENTITIES_ANSWER {
                Some(n)
            } else {
                None
            },
            None => None,
        },
        None => None,
    }
}

/// What a health probe of the socket `path` comes to.
///
/// This catches what a supervisor cannot see: a process that is alive and
/// accepts connections, but no longer answers them.
pub fn health(path: &str, probe: Probe) -> (v: Verdict)
    ensures
        v.code == (if healthy(probe) {
            0i32
        } else {
            1
        }),
        opt(v.message) == verdict_text(path@, probe),
{
    match probe {
        Probe::Unreachable(why) => {
            let mut m = concat3("unhealthy: cannot connect to ", path, ": ");
            m.append(why.as_str());
            Verdict { code: 1, message: Some(m) }
        },
        Probe::Unbounded => Verdict { code: 1, message: None },
        Probe::Unsent => Verdict { code: 1, message: Some("unhealthy: write failed".to_owned()) },
        Probe::Silent(limit, why) => {
            let mut m = concat3("unhealthy: no answer within ", limit.as_str(), ": ");
            m.append(why.as_str());
            Verdict { code: 1, message: Some(m) }
        },
        Probe::Truncated => Verdict {
            code: 1,
            message: Some("unhealthy: truncated answer".to_owned()),
        },
        Probe::Answered(body) => match read_health(body.as_slice()) {
            Some(n) => {
                let count = number(n as u128);
                Verdict { code: 0, message: Some(concat3("healthy: ", count.as_str(), " keys")) }
            },
            None => Verdict {
                code: 1,
                message: Some("unhealthy: unexpected reply".to_owned()),
            },
        },
    }
}

/// The request that a health probe sends.
pub fn health_request() -> (r: Vec<u8>)
    ensures
        r@ == framed(seq![REQUEST_IDENTITIES]),
{
    let mut m: Vec<u8> = Vec::new();
    m.push(REQUEST_IDENTITIES);
    assert(m@ =~= seq![REQUEST_IDENTITIES]);
    frame(m.as_slice())
}

// ---------------------------------------------------------------------------
// Laws
// ---------------------------------------------------------------------------

/// The four bytes in front of a message of a length that is read lead to just
/// that message.
pub proof fn header_announces_payload(header: [u8; 4], payload: Seq<u8>, action: ServeAction)
    requires
        readable(payload.len() as int),
        header@ == framed(payload).take(4),
        serve_next(ServeEvent::Header(header), action),
    ensures
        action == ServeAction::Read(payload.len() as usize),
        framed(payload).skip(4) == payload,
{
    let n = payload.len() as u32;
    number_reads_back(n, payload);
    assert(framed(payload) =~= be32(n as int) + payload);
    assert(framed(payload).skip(4) =~= payload);
}

/// An end of the stream ends the connection either way, as a matter of course
/// just where a message would begin.
pub proof fn end_of_stream_ends(event: ServeEvent, lost: Lost, action: ServeAction)
    requires
        lost is Ended,
        event == ServeEvent::NoHeader(lost) || event == ServeEvent::NoPayload(lost),
        serve_next(event, action),
    ensures
        action is Close || action == ServeAction::Abort(lost),
        action is Close <==> event is NoHeader,
{
}

/// Only requests to sign and for identities lead to work on keys; an extension
/// is worked on apart, and anything else is answered with a failure at once.
pub proof fn unknown_is_refused(payload: Vec<u8>, action: ServeAction)
    requires
        payload@.len() > 0,
        serve_next(ServeEvent::Payload(payload), action),
        payload@[0] != REQUEST_IDENTITIES,
        payload@[0] != SIGN_REQUEST,
        payload@[0] != EXTENSION,
    ensures
        action matches ServeAction::Send(b) && b@ == framed(seq![FAILURE]),
{
}

/// The probe finds every list of identities that the agent answers with healthy,
/// with the number of keys in it.
pub proof fn own_answer_is_healthy(ids: Seq<IdentityView>)
    requires
        ids.len() < U32_RANGE,
    ensures
        keys_reported(answer_bytes(ids)) == Some(ids.len() as u32),
{
    let n = ids.len() as u32;
    assert(ids.len() as int % 0x1_0000_0000 == n as int);
    assert(answer_bytes(ids) == seq![IDENTITIES_ANSWER] + be32(n as int) + identities_bytes(ids));
    lemma_count_reported(n, identities_bytes(ids));
}

proof fn lemma_count_reported(n: u32, rest: Seq<u8>)
    ensures
        keys_reported(seq![IDENTITIES_ANSWER] + be32(n as int) + rest) == Some(n),
{
    let reply = seq![IDENTITIES_ANSWER] + be32(n as int) + rest;
    assert(reply.skip(1) =~= be32(n as int) + rest);
    number_reads_back(n, rest);
}

/// The request of a health probe is read, and answered with the list of keys.
pub proof fn probe_is_answered(payload: Vec<u8>, action: ServeAction)
    requires
        payload@ == seq![REQUEST_IDENTITIES],
        serve_next(ServeEvent::Payload(payload), action),
    ensures
        readable(payload@.len() as int),
        action is ListIdentities,
{
}

/// Four bytes in front of a message lead to reading as many bytes as they stand
/// for, where that is between one and 2^20, and end the connection otherwise.
pub proof fn length_decides(h: [u8; 4], action: ServeAction)
    requires
        call_ensures(serve, (ServeEvent::Header(h),), action),
    ensures
        ({
            let n = h@[0] * 0x100_0000 + h@[1] * 0x1_0000 + h@[2] * 0x100 + h@[3];
            &&& 1 <= n <= 1048576 ==> action == ServeAction::Read(n as usize)
            &&& !(1 <= n <= 1048576) ==> action is Close
        }),
{
    reveal(be32_value);
}

/// The first byte of a message decides what is done with it, and the message is
/// worked on as it came.
pub proof fn first_byte_decides(p: Vec<u8>, action: ServeAction)
    requires
        p@.len() > 0,
        call_ensures(serve, (ServeEvent::Payload(p),), action),
    ensures
        action is ListIdentities <==> p@[0] == 11,
        action is Sign <==> p@[0] == 13,
        action is Extend <==> p@[0] == 27,
        action matches ServeAction::Sign(m) ==> m@ == p@,
        action matches ServeAction::Extend(m) ==> m@ == p@,
        p@[0] != 11 && p@[0] != 13 && p@[0] != 27 ==> (action matches ServeAction::Send(b) && b@
            == seq![0u8, 0, 0, 1, 5]),
{
    if p@[0] != 11 && p@[0] != 13 && p@[0] != 27 {
        assert(action->Send_0@ =~= seq![0u8, 0, 0, 1, 5]);
    }
}

/// An answer is sent to the client in one frame that holds just it.
pub proof fn answer_is_framed(reply: Vec<u8>, whole: &[u8], framed_reply: Vec<u8>, action: ServeAction)
    requires
        call_ensures(serve, (ServeEvent::Answer(reply),), action),
        whole@ == reply@,
        call_ensures(frame, (whole,), framed_reply),
    ensures
        action matches ServeAction::Send(b) && b@ == framed_reply@,
{
}

/// A connection that is lost is given up with what is known of it, and only an
/// end of the stream where a message would begin is no loss.
pub proof fn loss_is_kept(
    l: Lost,
    a: ServeAction,
    b: ServeAction,
    c: ServeAction,
    words: Option<String>,
)
    requires
        call_ensures(serve, (ServeEvent::NoHeader(l),), a),
        call_ensures(serve, (ServeEvent::NoPayload(l),), b),
        call_ensures(serve, (ServeEvent::NotSent(l),), c),
        call_ensures(farewell, (l,), words),
    ensures
        l is Ended ==> a is Close,
        l is Failed ==> a == ServeAction::Abort(l),
        b == ServeAction::Abort(l),
        c == ServeAction::Abort(l),
        words is Some <==> l is Failed,
        l matches Lost::Failed(why) ==> words->0@ == "keywardd: connection ended: "@ + why@,
{
}

/// One more connection is served just where fewer than 512 are open.
pub proof fn connections_are_capped(open: usize, r: bool)
    requires
        call_ensures(admits, (open,), r),
    ensures
        r <==> open < 512,
{
}

/// A probe is healthy just where its answer is a list of keys, and says how many;
/// in every other case it says why it is not, unless no time limit could be set.
pub proof fn probe_is_judged(
    path: &str,
    probe: Probe,
    v: Verdict,
    count: u128,
    digits: String,
)
    requires
        call_ensures(health, (path, probe), v),
        call_ensures(number, (count,), digits),
        probe matches Probe::Answered(b) ==> (b@.len() >= 5 ==> count == b@[1] * 0x100_0000 + b@[2]
            * 0x1_0000 + b@[3] * 0x100 + b@[4]),
    ensures
        v.code == 0 || v.code == 1,
        v.code == 0 <==> (probe matches Probe::Answered(b) && b@.len() >= 5 && b@[0] == 12),
        v.message is None <==> probe is Unbounded,
        v.code == 0 ==> opt(v.message) == Some("healthy: "@ + digits@ + " keys"@),
        probe is Answered && v.code == 1 ==> opt(v.message) == Some("unhealthy: unexpected reply"@),
        probe matches Probe::Unreachable(why) ==> opt(v.message) == Some(
            "unhealthy: cannot connect to "@ + path@ + ": "@ + why@,
        ),
        probe matches Probe::Silent(limit, why) ==> opt(v.message) == Some(
            "unhealthy: no answer within "@ + limit@ + ": "@ + why@,
        ),
        probe is Unsent ==> opt(v.message) == Some("unhealthy: write failed"@),
        probe is Truncated ==> opt(v.message) == Some("unhealthy: truncated answer"@),
{
    reveal(be32_value);
    if probe is Answered {
        let b = probe->Answered_0@;
        if b.len() >= 5 {
            assert(b.skip(1).take(4) =~= b.subrange(1, 5));
        }
    }
}

/// The probe asks for the keys in one frame.
pub proof fn probe_asks_for_keys(r: Vec<u8>)
    requires
        call_ensures(health_request, (), r),
    ensures
        r@ == seq![0u8, 0, 0, 1, 11],
{
    assert(r@ =~= seq![0u8, 0, 0, 1, 11]);
}

/// A reply counts keys just where it is a list of them that is long enough for the
/// count, and then it counts as many as it says.
pub proof fn count_is_read(body: &[u8], r: Option<u32>)
    requires
        call_ensures(read_health, (body,), r),
    ensures
        r is Some <==> body@.len() >= 5 && body@[0] == 12,
        r is Some ==> r->0 == body@[1] * 0x100_0000 + body@[2] * 0x1_0000 + body@[3] * 0x100
            + body@[4],
{
    reveal(be32_value);
    if body@.len() >= 5 {
        assert(body@.skip(1).take(4) =~= body@.subrange(1, 5));
    }
}

} // verus!
