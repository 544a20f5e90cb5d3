//! Extensions of the protocol.

use super::sign::body;
use super::{failure, Ctx, EXTENSION, FAILURE};
use crate::attrib::Attribution;
use crate::crypto::{fingerprint, fingerprint_text};
use crate::event::{Event, Kind, Stamp};
use crate::text::{opt, same};
use crate::wire::{same_bytes, string_bytes, string_reads_back, take_string, Reader, U32_RANGE};
use vstd::prelude::*;
use vstd::utf8::encode_utf8;

verus! {

/// The extension by which ssh says which host a session is bound to.
pub const SESSION_BIND: &'static str = "session-bind@openssh.com";

/// The host key that a message binds the session to.
pub open spec fn bound_key(payload: Seq<u8>) -> Option<Seq<u8>> {
    match take_string(body(payload)) {
        Some((name, rest)) => if name == encode_utf8(SESSION_BIND@) {
            match take_string(rest) {
                Some((key, _)) => Some(key),
                None => None,
            }
        } else {
            None
        },
        None => None,
    }
}

/// The fingerprint that a session is bound to after a message, where it was
/// bound to `bound` before.
pub open spec fn bound_by(bound: Option<Seq<char>>, payload: Seq<u8>) -> Option<Seq<char>> {
    match bound_key(payload) {
        Some(key) => Some(fingerprint_text(key)),
        None => bound,
    }
}

/// What is kept for one connection: the fingerprint of the host that ssh bound
/// the session to.
pub struct Connection {
    bound: Option<String>,
}

impl View for Connection {
    type V = Option<Seq<char>>;

    closed spec fn view(&self) -> Option<Seq<char>> {
        opt(self.bound)
    }
}

impl Connection {
    /// A new connection, bound to no host.
    pub fn new() -> (c: Connection)
        ensures
            c@ is None,
    {
        Connection { bound: None }
    }

    /// The fingerprint of the host that the session is bound to.
    pub fn bound_host(&self) -> (r: &Option<String>)
        ensures
            opt(*r) == self@,
    {
        &self.bound
    }
}

/// The event that records the host key with the fingerprint `fp`.
pub open spec fn records_binding(e: Event, fp: Seq<char>, who: Attribution, ts_nanos: u64) -> bool {
    &&& e.stamp == Stamp { ts_nanos, duration_ms: 0 }
    &&& e.kind == Kind::SessionBind
    &&& *e.who == who
    &&& e.key_fp is None
    &&& e.key_comment is None
    &&& e.upstream is None
    &&& opt(e.bound_host_fp) == Some(fp)
    &&& e.scope is None
    &&& !e.reused
    &&& e.outcome@ == "recorded"@
}

/// Keep the fingerprint `fp` of the host that the session is bound to, and say
/// what to record, where it is news.
pub fn bind_session<'a>(
    ctx: &Ctx,
    fp: String,
    who: &'a Attribution,
    bound: &mut Option<String>,
    ts_nanos: u64,
) -> (event: Option<Event<'a>>)
    ensures
        opt(*final(bound)) == Some(fp@),
        event is Some <==> ctx.log_lists && opt(*old(bound)) != Some(fp@),
        event matches Some(e) ==> records_binding(e, fp@, *who, ts_nanos),
{
    let news = match bound {
        Some(b) => !same(b.as_str(), fp.as_str()),
        None => true,
    };
    if !news {
        return None;
    }
    *bound = Some(fp.clone());
    if !ctx.log_lists {
        return None;
    }
    Some(
        Event {
            stamp: Stamp { ts_nanos, duration_ms: 0 },
            kind: Kind::SessionBind,
            who,
            key_fp: None,
            key_comment: None,
            upstream: None,
            bound_host_fp: Some(fp),
            scope: None,
            reused: false,
            outcome: "recorded".to_owned(),
        },
    )
}

/// Answer an extension.
///
/// No extension is passed on. `session-bind@openssh.com` carries the host key
/// of the server that ssh talks to; its fingerprint is kept for the signatures
/// that follow on the connection. The answer is the failure that an agent
/// without extensions gives, which ssh tolerates.
pub fn handle_extension<'a>(
    ctx: &Ctx,
    payload: &[u8],
    who: &'a Attribution,
    conn: &mut Connection,
    ts_nanos: u64,
) -> (r: (Vec<u8>, Option<Event<'a>>))
    ensures
        r.0@ == seq![FAILURE],
        final(conn)@ == bound_by(old(conn)@, payload@),
        r.1 is Some <==> ctx.log_lists && final(conn)@ != old(conn)@,
        r.1 matches Some(e) ==> records_binding(e, final(conn)@->0, *who, ts_nanos),
{
    let mut rd = Reader::new(payload);
    let _ = rd.u8();
    let mut event = None;
    if let Some(name) = rd.string() {
        if same_bytes(name, SESSION_BIND.as_bytes()) {
            if let Some(hostkey) = rd.string() {
                let fp = fingerprint(hostkey);
                event = bind_session(ctx, fp, who, &mut conn.bound, ts_nanos);
            }
        }
    }
    (failure(), event)
}

// ---------------------------------------------------------------------------
// Laws
// ---------------------------------------------------------------------------

/// A message that binds a session is understood as it was written, whatever
/// follows the host key.
pub proof fn binding_reads_back(kind: u8, key: Seq<u8>, rest: Seq<u8>)
    requires
        key.len() < U32_RANGE,
    ensures
        bound_key(seq![kind] + string_bytes(encode_utf8(SESSION_BIND@)) + string_bytes(key) + rest)
            == Some(key),
{
    reveal_strlit("session-bind@openssh.com");
    vstd::utf8::is_ascii_chars_encode_utf8(SESSION_BIND@);
    let name = encode_utf8(SESSION_BIND@);
    let p = seq![kind] + string_bytes(name) + string_bytes(key) + rest;
    let tail = string_bytes(key) + rest;
    assert(body(p) =~= string_bytes(name) + tail);
    string_reads_back(name, tail);
    string_reads_back(key, rest);
}

/// The host key that a message on a connection binds the session to.
pub open spec fn binds(message: Seq<u8>) -> Option<Seq<u8>> {
    if message.len() > 0 && message[0] == EXTENSION {
        bound_key(message)
    } else {
        None
    }
}

/// The course of one connection: what a session is bound to before each of its
/// messages, and after the last. Extensions alone can change it.
pub open spec fn is_course(states: Seq<Option<Seq<char>>>, messages: Seq<Seq<u8>>) -> bool {
    &&& states.len() == messages.len() + 1
    &&& states[0] is None
    &&& forall|k: int|
        0 <= k < messages.len() ==> states[k + 1] == (if (#[trigger] messages[k]).len() > 0
            && messages[k][0] == EXTENSION {
            bound_by(states[k], messages[k])
        } else {
            states[k]
        })
}

proof fn lemma_unbound_stays(
    states: Seq<Option<Seq<char>>>,
    messages: Seq<Seq<u8>>,
    from: int,
    to: int,
)
    requires
        is_course(states, messages),
        0 <= from <= to <= messages.len(),
        forall|k: int| from <= k < to ==> binds(#[trigger] messages[k]) is None,
    ensures
        states[to] == states[from],
    decreases to - from,
{
    if from < to {
        lemma_unbound_stays(states, messages, from, to - 1);
        assert(binds(messages[to - 1]) is None);
        assert(states[to - 1 + 1] == states[to - 1]);
    }
}

/// An event for a message on a connection, such as a signature, names the host
/// that the last binding before it named, whatever came in between.
pub proof fn binding_marks_what_follows(
    states: Seq<Option<Seq<char>>>,
    messages: Seq<Seq<u8>>,
    b: int,
    key: Seq<u8>,
    s: int,
    event: Event,
)
    requires
        is_course(states, messages),
        0 <= b < s < messages.len(),
        binds(messages[b]) == Some(key),
        forall|k: int| b < k < s ==> binds(#[trigger] messages[k]) is None,
        opt(event.bound_host_fp) == states[s],
    ensures
        opt(event.bound_host_fp) == Some(fingerprint_text(key)),
{
    assert(states[b + 1] == Some(fingerprint_text(key)));
    lemma_unbound_stays(states, messages, b + 1, s);
}

/// An event for a message on a connection that no message bound before names no
/// host, whatever happened on other connections.
pub proof fn unbound_connection_names_no_host(
    states: Seq<Option<Seq<char>>>,
    messages: Seq<Seq<u8>>,
    s: int,
    event: Event,
)
    requires
        is_course(states, messages),
        0 <= s < messages.len(),
        forall|k: int| 0 <= k < s ==> binds(#[trigger] messages[k]) is None,
        opt(event.bound_host_fp) == states[s],
    ensures
        event.bound_host_fp is None,
{
    lemma_unbound_stays(states, messages, 0, s);
}

/// An extension that is written by name binds the session just where the name is
/// that of the binding, and then to the host key that follows; every other leaves
/// the session as it is. All are answered with a failure, and a binding is
/// recorded just where that is asked for and it is news.
pub proof fn extension_binds_by_name(
    ctx: &Ctx,
    kind: u8,
    name: Seq<u8>,
    key: &[u8],
    rest: Seq<u8>,
    payload: &[u8],
    who: &Attribution,
    conn: &mut Connection,
    ts_nanos: u64,
    r: (Vec<u8>, Option<Event>),
    fp: String,
)
    requires
        name.len() < U32_RANGE,
        key@.len() < U32_RANGE,
        payload@ == seq![kind] + string_bytes(name) + string_bytes(key@) + rest,
        call_ensures(handle_extension, (ctx, payload, who, conn, ts_nanos), r),
        call_ensures(fingerprint, (key,), fp),
    ensures
        r.0@ == seq![5u8],
        name == encode_utf8("session-bind@openssh.com"@) ==> {
            &&& final(conn)@ == Some(fp@)
            &&& r.1 is Some <==> ctx.log_lists && old(conn)@ != Some(fp@)
        },
        name != encode_utf8("session-bind@openssh.com"@) ==> final(conn)@ == old(conn)@ && r.1
            is None,
        r.1 matches Some(e) ==> {
            &&& e.kind == Kind::SessionBind
            &&& opt(e.bound_host_fp) == Some(fp@)
            &&& e.who == who
            &&& e.stamp.ts_nanos == ts_nanos && e.stamp.duration_ms == 0
            &&& e.outcome@ == "recorded"@
            &&& e.key_fp is None && e.key_comment is None && e.upstream is None
            &&& e.scope is None && !e.reused
        },
{
    let tail = string_bytes(key@) + rest;
    assert(body(payload@) =~= string_bytes(name) + tail);
    string_reads_back(name, tail);
    string_reads_back(key@, rest);
}

/// A new connection is bound to no host, and what it is bound to is what it says.
pub proof fn connection_starts_unbound(c: Connection, d: &Connection, host: &Option<String>)
    requires
        call_ensures(Connection::new, (), c),
        call_ensures(Connection::bound_host, (d,), host),
    ensures
        c@ is None,
        opt(*host) == d@,
{
}

/// A session is bound to the fingerprint that it is given, and a record is asked
/// for just where records are on and it was bound to another, or to none.
pub proof fn binding_replaces(
    ctx: &Ctx,
    fp: String,
    who: &Attribution,
    bound: &mut Option<String>,
    ts_nanos: u64,
    event: Option<Event>,
)
    requires
        call_ensures(bind_session, (ctx, fp, who, bound, ts_nanos), event),
    ensures
        opt(*final(bound)) == Some(fp@),
        event is Some <==> ctx.log_lists && (*old(bound) is None || (*old(bound))->0@ != fp@),
        event matches Some(e) ==> opt(e.bound_host_fp) == Some(fp@),
{
}

/// What follows a byte string.
pub open spec fn after_string(s: Seq<u8>) -> Seq<u8> {
    match take_string(s) {
        Some((_, rest)) => rest,
        None => s,
    }
}

/// A message that breaks off before its name or the host key ends leaves the
/// session as it is, and is answered with a failure.
pub proof fn broken_extension_binds_nothing(
    ctx: &Ctx,
    payload: &[u8],
    who: &Attribution,
    conn: &mut Connection,
    ts_nanos: u64,
    r: (Vec<u8>, Option<Event>),
)
    requires
        call_ensures(handle_extension, (ctx, payload, who, conn, ts_nanos), r),
        payload@.len() == 0 || take_string(payload@.skip(1)) is None || take_string(
            after_string(payload@.skip(1)),
        ) is None,
    ensures
        r.0@ == seq![5u8],
        r.1 is None,
        final(conn)@ == old(conn)@,
{
}

} // verus!
