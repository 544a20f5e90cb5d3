//! Requests to sign: for our own key here, for any other key by the upstream
//! that owns it.

use super::approval::{
    approval_next, approval_view, covered, reuse_covers, scope_of, scope_view, Approval, Scope,
};
use super::extension::Connection;
use super::identities::{
    first_claim_owns, first_in, is_first_claim, merged, route_of, unclaimed_has_no_route, IdentityView,
    RouteView, Routes,
};
use super::prompt::{prompt_action, prompt_text, sheet_reason, sheet_text};
use super::{failure, Ctx, Upstream, FAILURE, SIGN_RESPONSE};
use crate::attrib::Attribution;
use crate::crypto::{fingerprint, fingerprint_text};
use crate::enclave::Enclave;
use crate::event::{Event, Kind, Stamp};
use crate::text::{concat2, copied, opt};
use crate::wire::{
    same_bytes, string_bytes, string_reads_back, take_string, take_u8, Reader, Writer, U32_RANGE,
};
use vstd::prelude::*;
use vstd::slice::slice_to_vec;

verus! {

// ---------------------------------------------------------------------------
// Reading the request
// ---------------------------------------------------------------------------

/// What follows the byte that says what kind of message it is.
pub open spec fn body(payload: Seq<u8>) -> Seq<u8> {
    match take_u8(payload) {
        Some((_, rest)) => rest,
        None => payload,
    }
}

/// The key that a request to sign is for.
pub open spec fn requested_key(payload: Seq<u8>) -> Option<Seq<u8>> {
    match take_string(body(payload)) {
        Some((blob, _)) => Some(blob),
        None => None,
    }
}

/// The data that a request to sign is about; none where it carries none.
pub open spec fn requested_data(payload: Seq<u8>) -> Seq<u8> {
    match take_string(body(payload)) {
        Some((_, rest)) => match take_string(rest) {
            Some((data, _)) => data,
            None => seq![],
        },
        None => seq![],
    }
}

/// A request to sign with our own key, ready for the prompt.
pub struct OwnRequest {
    /// What to sign.
    pub data: Vec<u8>,
    /// What the card says.
    pub headline: String,
    /// What the system sheet says.
    pub reason: String,
    /// The fingerprint of the key.
    pub fp: String,
    /// Where the request comes from.
    pub scope: Scope,
}

/// How a request to sign goes on.
pub enum SignStep {
    /// It names no key: answer with this, and record nothing.
    Answer(Vec<u8>),
    /// It is for our own key.
    Own(OwnRequest),
    /// It is for this key, which an upstream may hold.
    Foreign(Vec<u8>),
}

/// The request is for our own key.
pub open spec fn is_own(ctx: Ctx, payload: Seq<u8>) -> bool {
    ctx.own_identity() is Some && requested_key(payload) == Some(ctx.own_identity()->0.blob)
}

/// Take up a request to sign.
///
/// For our own key we write the prompt that the user sees.
pub fn handle_sign(ctx: &Ctx, payload: &[u8], who: &Attribution) -> (step: SignStep)
    ensures
        match requested_key(payload@) {
            None => step matches SignStep::Answer(r) && r@ == seq![FAILURE],
            Some(blob) => if is_own(*ctx, payload@) {
                step matches SignStep::Own(o) && {
                    &&& o.data@ == requested_data(payload@)
                    &&& o.headline@ == prompt_text(who.purpose)
                    &&& o.reason@ == sheet_text(who.purpose, who.app, ctx.sheet_reason@)
                    &&& o.fp@ == fingerprint_text(blob)
                    &&& o.scope@ == scope_view(*who)
                }
            } else {
                step matches SignStep::Foreign(b) && b@ == blob
            },
        },
{
    let mut r = Reader::new(payload);
    let _ = r.u8();
    let blob = match r.string() {
        Some(b) => b,
        None => return SignStep::Answer(failure()),
    };
    if let Some(e) = &ctx.enclave {
        if same_bytes(e.ssh_public_blob().as_slice(), blob) {
            let data = match r.string() {
                Some(d) => slice_to_vec(d),
                None => Vec::new(),
            };
            assert(data@ =~= requested_data(payload@));
            return SignStep::Own(
                OwnRequest {
                    data,
                    headline: prompt_action(who),
                    reason: sheet_reason(who, ctx.sheet_reason.as_str()),
                    fp: fingerprint(blob),
                    scope: scope_of(who),
                },
            );
        }
    }
    SignStep::Foreign(slice_to_vec(blob))
}

// ---------------------------------------------------------------------------
// Our own key
// ---------------------------------------------------------------------------

/// How a signature is authorised.
pub struct Authorisation {
    /// An earlier approval covers it.
    pub reused: bool,
    /// How long an authentication may have been granted before, in nanoseconds.
    pub window: u128,
}

/// See whether an earlier approval covers a request from `scope`.
///
/// Outside the scope of the last approval the window is 0, so that the enclave
/// asks anew and drops what it holds: the next request from there cannot
/// inherit an authentication that was granted somewhere else.
pub fn authorise(ctx: &Ctx, scope: &Scope, last: &Option<Approval>, now: u128) -> (a: Authorisation)
    ensures
        a.reused == covered(approval_view(*last), scope@, ctx.touch_id_reuse, now),
        a.window == (if a.reused {
            ctx.touch_id_reuse
        } else {
            0
        }),
{
    let reused = match last {
        Some(l) => reuse_covers(Some(l), scope, ctx.touch_id_reuse, now),
        None => reuse_covers(None, scope, ctx.touch_id_reuse, now),
    };
    Authorisation {
        reused,
        window: if reused {
            ctx.touch_id_reuse
        } else {
            0
        },
    }
}

/// The message that carries a signature.
pub open spec fn signature_bytes(sig: Seq<u8>) -> Seq<u8> {
    seq![SIGN_RESPONSE] + string_bytes(sig)
}

/// Answer a request for our own key with what the enclave gave, at the time
/// `now`, and say what to record.
///
/// Only a signature that was authenticated anew counts as an approval. One that
/// rides on an earlier approval leaves that as it is, so that its window ends
/// when it was to end.
pub fn finish_own<'a>(
    key: &Enclave,
    own: OwnRequest,
    reused: bool,
    signed: Result<Vec<u8>, String>,
    last: &mut Option<Approval>,
    now: u128,
    who: &'a Attribution,
    conn: &Connection,
    stamp: Stamp,
) -> (r: (Vec<u8>, Event<'a>))
    ensures
        match signed {
            Ok(sig) => {
                &&& r.0@ == signature_bytes(sig@)
                &&& r.1.outcome@ == "ok"@
                &&& *final(last) == (if reused {
                    *old(last)
                } else {
                    Some((own.scope, now))
                })
            },
            Err(e) => {
                &&& r.0@ == seq![FAILURE]
                &&& r.1.outcome == e
                &&& *final(last) == *old(last)
            },
        },
        approval_view(*final(last)) == approval_next(
            approval_view(*old(last)),
            own.scope@,
            reused,
            signed is Ok,
            now,
        ),
        r.1.stamp == stamp,
        r.1.kind == Kind::Sign,
        r.1.who == who,
        r.1.key_fp == Some(own.fp),
        opt(r.1.key_comment) == Some(key.comment_text()),
        opt(r.1.upstream) == Some("Secure Enclave"@),
        opt(r.1.bound_host_fp) == conn@,
        r.1.scope == Some(own.scope),
        r.1.reused == reused,
{
    let (reply, outcome) = match signed {
        Ok(sig) => {
            if !reused {
                *last = Some((own.scope.clone(), now));
            }
            let mut w = Writer::new();
            w.u8(SIGN_RESPONSE);
            w.string(sig.as_slice());
            assert(w@ =~= signature_bytes(sig@));
            (w.buf, "ok".to_owned())
        },
        Err(e) => (failure(), e),
    };
    let event = Event {
        stamp,
        kind: Kind::Sign,
        who,
        key_fp: Some(own.fp),
        key_comment: Some(key.comment_str().to_owned()),
        upstream: Some("Secure Enclave".to_owned()),
        bound_host_fp: copied(conn.bound_host()),
        scope: Some(own.scope),
        reused,
        outcome,
    };
    (reply, event)
}

// ---------------------------------------------------------------------------
// Other keys
// ---------------------------------------------------------------------------

/// Where a request for another key goes.
pub enum RouteStep {
    /// Nobody is known to hold the key: ask the upstreams again.
    Refresh,
    /// Pass this message on to the upstream with this number.
    Forward(usize, Vec<u8>),
    /// Nobody holds the key.
    Nowhere,
}

/// The contents of such a step.
pub enum RouteStepView {
    Refresh,
    Forward(int, Seq<u8>),
    Nowhere,
}

impl View for RouteStep {
    type V = RouteStepView;

    open spec fn view(&self) -> RouteStepView {
        match self {
            RouteStep::Refresh => RouteStepView::Refresh,
            RouteStep::Forward(n, message) => RouteStepView::Forward(*n as int, message@),
            RouteStep::Nowhere => RouteStepView::Nowhere,
        }
    }
}

/// Where the request `payload` goes whose key has this route, among so many
/// upstreams. It is passed on as it came.
pub open spec fn route_step(
    route: Option<RouteView>,
    upstreams: nat,
    payload: Seq<u8>,
    refreshed: bool,
) -> RouteStepView {
    match route {
        None => if refreshed {
            RouteStepView::Nowhere
        } else {
            RouteStepView::Refresh
        },
        Some(r) => if r.upstream < upstreams {
            RouteStepView::Forward(r.upstream, payload)
        } else {
            RouteStepView::Nowhere
        },
    }
}

/// The comment that is recorded for a key with this route: none where it is
/// empty.
pub open spec fn route_comment(route: Option<RouteView>) -> Option<Seq<char>> {
    match route {
        Some(r) => if r.identity.comment.len() > 0 {
            Some(r.identity.comment)
        } else {
            None
        },
        None => None,
    }
}

/// Find the upstream that the request `payload` for the key `blob` is passed on
/// to, and the comment of the key.
///
/// Where the key is not known, the upstreams are asked once more.
pub fn route_sign(
    upstreams: &Vec<Upstream>,
    routes: &Routes,
    blob: &[u8],
    payload: &[u8],
    refreshed: bool,
) -> (r: (RouteStep, Option<String>))
    ensures
        r.0@ == route_step(route_of(routes@, blob@), upstreams@.len(), payload@, refreshed),
        opt(r.1) == route_comment(route_of(routes@, blob@)),
{
    match routes.find(blob) {
        None => {
            let step = if refreshed {
                RouteStep::Nowhere
            } else {
                RouteStep::Refresh
            };
            (step, None)
        },
        Some(route) => {
            let step = if route.upstream < upstreams.len() {
                RouteStep::Forward(route.upstream, slice_to_vec(payload))
            } else {
                RouteStep::Nowhere
            };
            let comment = if route.identity.comment.as_str().is_empty() {
                None
            } else {
                Some(route.identity.comment.clone())
            };
            (step, comment)
        },
    }
}

/// What became of a request that was to be passed on.
pub enum Forwarded {
    /// Nobody holds the key.
    Nowhere,
    /// The upstream answered.
    Answered(usize, Vec<u8>),
    /// The upstream did not answer in time.
    TimedOut(usize),
    /// The upstream could not be asked, and this is why.
    Failed(usize, String),
}

/// Why an upstream did not answer.
pub enum Trouble {
    /// The call would have had to wait for longer than it may.
    WouldBlock,
    /// The call took longer than it may.
    TimedOut,
    /// Anything else, and this is why.
    Other(String),
}

/// What became of a request that the upstream with the number `n` was asked, out
/// of what the call to it gave. A call that waited for too long is a timeout,
/// whichever way it says so.
pub fn forwarded(n: usize, reply: Result<Vec<u8>, Trouble>) -> (r: Forwarded)
    ensures
        r == (match reply {
            Ok(answer) => Forwarded::Answered(n, answer),
            Err(Trouble::WouldBlock) => Forwarded::TimedOut(n),
            Err(Trouble::TimedOut) => Forwarded::TimedOut(n),
            Err(Trouble::Other(why)) => Forwarded::Failed(n, why),
        }),
{
    match reply {
        Ok(answer) => Forwarded::Answered(n, answer),
        Err(Trouble::WouldBlock) => Forwarded::TimedOut(n),
        Err(Trouble::TimedOut) => Forwarded::TimedOut(n),
        Err(Trouble::Other(why)) => Forwarded::Failed(n, why),
    }
}

/// The upstream that a request was passed on to.
pub open spec fn forwarded_to(f: Forwarded) -> Option<int> {
    match f {
        Forwarded::Nowhere => None,
        Forwarded::Answered(n, _) => Some(n as int),
        Forwarded::TimedOut(n) => Some(n as int),
        Forwarded::Failed(n, _) => Some(n as int),
    }
}

/// What the client is answered.
pub open spec fn forwarded_reply(f: Forwarded) -> Seq<u8> {
    match f {
        Forwarded::Answered(_, reply) => reply@,
        _ => seq![FAILURE],
    }
}

/// What is recorded of how it went.
pub open spec fn forwarded_outcome(f: Forwarded) -> Seq<char> {
    match f {
        Forwarded::Nowhere => "no upstream holds this key"@,
        Forwarded::Answered(_, reply) => if reply@.len() > 0 && reply@[0] == FAILURE {
            "denied"@
        } else {
            "ok"@
        },
        Forwarded::TimedOut(_) => "timeout"@,
        Forwarded::Failed(_, why) => "error: "@ + why@,
    }
}

/// Answer a request for another key with what became of it, and say what to
/// record.
///
/// An upstream owns its own authentication, so there is no scope to record.
pub fn finish_forwarded<'a>(
    upstreams: &Vec<Upstream>,
    blob: &[u8],
    comment: Option<String>,
    forwarded: Forwarded,
    who: &'a Attribution,
    conn: &Connection,
    stamp: Stamp,
) -> (r: (Vec<u8>, Event<'a>))
    requires
        forwarded_to(forwarded) matches Some(n) ==> n < upstreams@.len(),
    ensures
        r.0@ == forwarded_reply(forwarded),
        r.1.stamp == stamp,
        r.1.kind == Kind::Sign,
        r.1.who == who,
        opt(r.1.key_fp) == Some(fingerprint_text(blob@)),
        r.1.key_comment == comment,
        opt(r.1.upstream) == (match forwarded_to(forwarded) {
            Some(n) => Some(upstreams@[n].name@),
            None => None,
        }),
        opt(r.1.bound_host_fp) == conn@,
        r.1.scope is None,
        !r.1.reused,
        r.1.outcome@ == forwarded_outcome(forwarded),
{
    let (reply, upstream, outcome) = match forwarded {
        Forwarded::Nowhere => (failure(), None, "no upstream holds this key".to_owned()),
        Forwarded::Answered(n, reply) => {
            let denied = reply.len() > 0 && reply[0] == FAILURE;
            let outcome = if denied {
                "denied".to_owned()
            } else {
                "ok".to_owned()
            };
            (reply, Some(upstreams[n].name.clone()), outcome)
        },
        Forwarded::TimedOut(n) => (
            failure(),
            Some(upstreams[n].name.clone()),
            "timeout".to_owned(),
        ),
        Forwarded::Failed(n, why) => (
            failure(),
            Some(upstreams[n].name.clone()),
            concat2("error: ", why.as_str()),
        ),
    };
    let event = Event {
        stamp,
        kind: Kind::Sign,
        who,
        key_fp: Some(fingerprint(blob)),
        key_comment: comment,
        upstream,
        bound_host_fp: copied(conn.bound_host()),
        scope: None,
        reused: false,
        outcome,
    };
    (reply, event)
}

// ---------------------------------------------------------------------------
// Laws
// ---------------------------------------------------------------------------

/// The request of a client to sign `data` with the key `blob`.
pub open spec fn request_bytes(kind: u8, blob: Seq<u8>, data: Seq<u8>, flags: Seq<u8>) -> Seq<u8> {
    seq![kind] + string_bytes(blob) + string_bytes(data) + flags
}

/// A request is read as it was written, whatever follows the data.
pub proof fn request_reads_back(kind: u8, blob: Seq<u8>, data: Seq<u8>, flags: Seq<u8>)
    requires
        blob.len() < U32_RANGE,
        data.len() < U32_RANGE,
    ensures
        requested_key(request_bytes(kind, blob, data, flags)) == Some(blob),
        requested_data(request_bytes(kind, blob, data, flags)) == data,
{
    let p = request_bytes(kind, blob, data, flags);
    let rest = string_bytes(data) + flags;
    assert(body(p) =~= string_bytes(blob) + rest);
    string_reads_back(blob, rest);
    string_reads_back(data, flags);
}

/// A request goes, as it came, to the first upstream that claims its key, and
/// nowhere once all were asked and none does.
pub proof fn first_claimer_signs(
    lists: Seq<Option<Seq<IdentityView>>>,
    blob: Seq<u8>,
    payload: Seq<u8>,
    refreshed: bool,
)
    ensures
        forall|n: int| #[trigger]
            is_first_claim(lists, n, blob) ==> route_step(
                route_of(merged(lists), blob),
                lists.len(),
                payload,
                refreshed,
            ) == RouteStepView::Forward(n, payload),
        (forall|k: int|
            0 <= k < lists.len() ==> (#[trigger] lists[k] is None || first_in(
                lists[k]->0,
                blob,
            ) is None)) ==> route_step(route_of(merged(lists), blob), lists.len(), payload, true)
            == RouteStepView::Nowhere,
{
    assert forall|n: int| #[trigger] is_first_claim(lists, n, blob) implies route_step(
        route_of(merged(lists), blob),
        lists.len(),
        payload,
        refreshed,
    ) == RouteStepView::Forward(n, payload) by {
        first_claim_owns(lists, n, blob);
    }
    if forall|k: int|
        0 <= k < lists.len() ==> (#[trigger] lists[k] is None || first_in(
            lists[k]->0,
            blob,
        ) is None) {
        unclaimed_has_no_route(lists, blob);
    }
}

/// An approval granted by a signature covers the next request from the same
/// place within the window, and none from anywhere else.
pub proof fn signature_approves_its_scope(
    granted: Scope,
    at: u128,
    scope: Scope,
    window: u128,
    now: u128,
)
    requires
        at <= now,
        now - at < window,
    ensures
        covered(approval_view(Some((granted, at))), scope@, window, now) <==> granted@ == scope@,
{
}

/// A request written for a key is taken up as our own, with its data, if and only
/// if the key is the public blob of the enclave key; otherwise it is one for that
/// key, which an upstream may hold. Nothing else in the context decides it.
pub proof fn own_key_alone_decides(
    ctx: &Ctx,
    own: Vec<u8>,
    kind: u8,
    blob: Seq<u8>,
    data: Seq<u8>,
    flags: Seq<u8>,
    payload: &[u8],
    who: &Attribution,
    step: SignStep,
)
    requires
        ctx.enclave is Some ==> call_ensures(Enclave::ssh_public_blob, (&ctx.enclave->0,), own),
        blob.len() < U32_RANGE,
        data.len() < U32_RANGE,
        payload@ == seq![kind] + string_bytes(blob) + string_bytes(data) + flags,
        call_ensures(handle_sign, (ctx, payload, who), step),
    ensures
        step is Own <==> ctx.enclave is Some && blob == own@,
        step matches SignStep::Own(o) ==> o.data@ == data,
        !(step is Own) ==> (step matches SignStep::Foreign(b) && b@ == blob),
{
    assert(payload@ == request_bytes(kind, blob, data, flags));
    request_reads_back(kind, blob, data, flags);
}

/// The same holds of a request whatever follows the key in it, and its data is
/// what can be read there.
pub proof fn own_key_decides_whatever_follows(
    ctx: &Ctx,
    own: Vec<u8>,
    kind: u8,
    blob: Seq<u8>,
    rest: Seq<u8>,
    payload: &[u8],
    who: &Attribution,
    step: SignStep,
)
    requires
        ctx.enclave is Some ==> call_ensures(Enclave::ssh_public_blob, (&ctx.enclave->0,), own),
        blob.len() < U32_RANGE,
        payload@ == seq![kind] + string_bytes(blob) + rest,
        call_ensures(handle_sign, (ctx, payload, who), step),
    ensures
        step is Own <==> ctx.enclave is Some && blob == own@,
        step is Own && take_string(rest) is None ==> step->Own_0.data@.len() == 0,
        take_string(rest) matches Some((data, _)) ==> (step is Own ==> step->Own_0.data@ == data),
        !(step is Own) ==> (step matches SignStep::Foreign(b) && b@ == blob),
{
    assert(body(payload@) =~= string_bytes(blob) + rest);
    string_reads_back(blob, rest);
}

/// Two contexts with the same enclave key take up every message in the same way,
/// whatever else is configured; only the text of the sheet may differ.
pub proof fn context_does_not_route(
    a: &Ctx,
    b: &Ctx,
    payload: &[u8],
    who: &Attribution,
    s: SignStep,
    t: SignStep,
)
    requires
        a.enclave == b.enclave,
        call_ensures(handle_sign, (a, payload, who), s),
        call_ensures(handle_sign, (b, payload, who), t),
    ensures
        s is Answer <==> t is Answer,
        s is Own <==> t is Own,
        s is Foreign <==> t is Foreign,
        s is Own ==> {
            &&& s->Own_0.data@ == t->Own_0.data@
            &&& s->Own_0.headline@ == t->Own_0.headline@
            &&& s->Own_0.fp@ == t->Own_0.fp@
            &&& s->Own_0.scope@ == t->Own_0.scope@
            &&& a.sheet_reason@ == b.sheet_reason@ ==> s->Own_0.reason@ == t->Own_0.reason@
        },
        s is Foreign ==> s->Foreign_0@ == t->Foreign_0@,
        s is Answer ==> s->Answer_0@ == seq![5u8] && t->Answer_0@ == seq![5u8],
{
}

/// What the user is asked, and the fingerprint and the scope that are recorded,
/// are those that the prompt, the sheet, the key and the request give.
pub proof fn own_request_is_described(
    ctx: &Ctx,
    payload: &[u8],
    who: &Attribution,
    o: OwnRequest,
    configured: &str,
    headline: String,
    reason: String,
    key: Vec<u8>,
    blob: &[u8],
    fp: String,
    scope: Scope,
)
    requires
        call_ensures(handle_sign, (ctx, payload, who), SignStep::Own(o)),
        configured@ == ctx.sheet_reason@,
        call_ensures(prompt_action, (who,), headline),
        call_ensures(sheet_reason, (who, configured), reason),
        ctx.enclave is Some,
        call_ensures(Enclave::ssh_public_blob, (&ctx.enclave->0,), key),
        blob@ == key@,
        call_ensures(fingerprint, (blob,), fp),
        call_ensures(scope_of, (who,), scope),
    ensures
        o.headline@ == headline@,
        o.reason@ == reason@,
        o.fp@ == fp@,
        o.scope@ == scope@,
{
}

/// A message that names no key is answered with a failure, and any other is not
/// answered yet.
pub proof fn nameless_request_fails(ctx: &Ctx, payload: &[u8], who: &Attribution, step: SignStep)
    requires
        call_ensures(handle_sign, (ctx, payload, who), step),
    ensures
        ({
            let p = payload@;
            let n = p[1] * 0x100_0000 + p[2] * 0x1_0000 + p[3] * 0x100 + p[4];
            step is Answer <==> !(p.len() >= 5 && p.len() - 5 >= n)
        }),
        step matches SignStep::Answer(r) ==> r@ == seq![5u8],
{
    reveal(crate::wire::be32_value);
    let p = payload@;
    if p.len() >= 5 {
        assert(p.skip(1).take(4) =~= p.subrange(1, 5));
    }
}

/// What an upstream answers reaches the client as it came, whichever upstream it
/// was, and only where none answered the client gets the one byte for a failure.
pub proof fn answer_is_handed_back(
    upstreams: &Vec<Upstream>,
    blob: &[u8],
    comment: Option<String>,
    f: Forwarded,
    who: &Attribution,
    conn: &Connection,
    stamp: Stamp,
    r: (Vec<u8>, Event),
)
    requires
        call_ensures(finish_forwarded, (upstreams, blob, comment, f, who, conn, stamp), r),
    ensures
        f matches Forwarded::Answered(_, answer) ==> r.0@ == answer@,
        !(f is Answered) ==> r.0@ == seq![5u8],
{
}

/// Two upstreams that answer the same are treated the same, but for the name that
/// is recorded.
pub proof fn upstreams_are_equal(
    upstreams: &Vec<Upstream>,
    blob: &[u8],
    comment: Option<String>,
    answer: Vec<u8>,
    n: usize,
    m: usize,
    who: &Attribution,
    conn: &Connection,
    stamp: Stamp,
    r: (Vec<u8>, Event),
    s: (Vec<u8>, Event),
)
    requires
        n < upstreams@.len(),
        m < upstreams@.len(),
        call_ensures(
            finish_forwarded,
            (upstreams, blob, comment, Forwarded::Answered(n, answer), who, conn, stamp),
            r,
        ),
        call_ensures(
            finish_forwarded,
            (upstreams, blob, comment, Forwarded::Answered(m, answer), who, conn, stamp),
            s,
        ),
    ensures
        r.0@ == s.0@,
        r.1.outcome@ == s.1.outcome@,
        opt(r.1.key_fp) == opt(s.1.key_fp),
        opt(r.1.upstream) == Some(upstreams@[n as int].name@),
        opt(s.1.upstream) == Some(upstreams@[m as int].name@),
{
}

/// What is recorded of a request that was passed on: the key, its comment, the
/// caller, the bound host, the upstream that was asked, and how it went.
pub proof fn forwarding_is_recorded(
    upstreams: &Vec<Upstream>,
    blob: &[u8],
    comment: Option<String>,
    f: Forwarded,
    who: &Attribution,
    conn: &Connection,
    stamp: Stamp,
    r: (Vec<u8>, Event),
    fp: String,
    bound: &Option<String>,
)
    requires
        f matches Forwarded::Answered(n, _) ==> n < upstreams@.len(),
        f matches Forwarded::TimedOut(n) ==> n < upstreams@.len(),
        f matches Forwarded::Failed(n, _) ==> n < upstreams@.len(),
        call_ensures(finish_forwarded, (upstreams, blob, comment, f, who, conn, stamp), r),
        call_ensures(fingerprint, (blob,), fp),
        call_ensures(Connection::bound_host, (conn,), bound),
    ensures
        r.1.kind == Kind::Sign,
        r.1.stamp == stamp,
        r.1.who == who,
        opt(r.1.key_fp) == Some(fp@),
        r.1.key_comment == comment,
        opt(r.1.bound_host_fp) == opt(*bound),
        r.1.scope is None,
        !r.1.reused,
        match f {
            Forwarded::Nowhere => r.1.upstream is None && r.1.outcome@
                == "no upstream holds this key"@,
            Forwarded::Answered(n, answer) => {
                &&& opt(r.1.upstream) == Some(upstreams@[n as int].name@)
                &&& r.1.outcome@ == "denied"@ <==> answer@.len() > 0 && answer@[0] == 5
                &&& r.1.outcome@ == "ok"@ <==> !(answer@.len() > 0 && answer@[0] == 5)
            },
            Forwarded::TimedOut(n) => opt(r.1.upstream) == Some(upstreams@[n as int].name@)
                && r.1.outcome@ == "timeout"@,
            Forwarded::Failed(n, why) => opt(r.1.upstream) == Some(upstreams@[n as int].name@)
                && r.1.outcome@ == "error: "@ + why@,
        },
{
    reveal_strlit("denied");
    reveal_strlit("ok");
    assert("denied"@.len() != "ok"@.len());
}

/// A client is answered with a signature just where the enclave gave one, and
/// that signature is read back from the answer; else with a failure.
pub proof fn signature_is_answered(
    key: &Enclave,
    own: OwnRequest,
    reused: bool,
    signed: Result<Vec<u8>, String>,
    last: &mut Option<Approval>,
    now: u128,
    who: &Attribution,
    conn: &Connection,
    stamp: Stamp,
    r: (Vec<u8>, Event),
    bound: &Option<String>,
)
    requires
        call_ensures(finish_own, (key, own, reused, signed, last, now, who, conn, stamp), r),
        call_ensures(Connection::bound_host, (conn,), bound),
        signed matches Ok(sig) ==> sig@.len() < U32_RANGE,
    ensures
        r.0@.len() > 0,
        signed matches Ok(sig) ==> {
            &&& r.0@[0] == 14
            &&& take_string(r.0@.skip(1)) == Some((sig@, Seq::<u8>::empty()))
            &&& r.1.outcome@ == "ok"@
        },
        signed matches Err(why) ==> r.0@ == seq![5u8] && r.1.outcome@ == why@,
        r.1.kind == Kind::Sign,
        r.1.stamp == stamp,
        r.1.who == who,
        opt(r.1.key_fp) == Some(own.fp@),
        opt(r.1.key_comment) == Some(key.comment@),
        opt(r.1.upstream) == Some("Secure Enclave"@),
        opt(r.1.bound_host_fp) == opt(*bound),
        r.1.scope is Some && r.1.scope->0@ == own.scope@,
        r.1.reused == reused,
{
    if signed is Ok {
        let sig = signed->Ok_0@;
        string_reads_back(sig, seq![]);
        assert(string_bytes(sig) + seq![] =~= string_bytes(sig));
        assert(r.0@.skip(1) =~= string_bytes(sig));
    }
}

/// The approval that stands changes just where a signature was given that did not
/// ride on one, and then it is for the place and the time of that signature.
pub proof fn approval_changes_by_authentication(
    key: &Enclave,
    own: OwnRequest,
    reused: bool,
    signed: Result<Vec<u8>, String>,
    last: &mut Option<Approval>,
    now: u128,
    who: &Attribution,
    conn: &Connection,
    stamp: Stamp,
    r: (Vec<u8>, Event),
)
    requires
        call_ensures(finish_own, (key, own, reused, signed, last, now, who, conn, stamp), r),
    ensures
        signed is Err || reused ==> *final(last) == *old(last),
        signed is Ok && !reused ==> {
            *final(last) matches Some((scope, at)) && scope@ == own.scope@ && at == now
        },
{
}

/// A request rides on the approval that stands just where that covers it under
/// the configured window, and only then the enclave is given a window at all.
pub proof fn authorisation_follows_cover(
    ctx: &Ctx,
    scope: &Scope,
    granted: Scope,
    at: u128,
    now: u128,
    a: Authorisation,
    none: Authorisation,
    covers: bool,
)
    requires
        call_ensures(authorise, (ctx, scope, &Some((granted, at)), now), a),
        call_ensures(authorise, (ctx, scope, &None, now), none),
        call_ensures(reuse_covers, (Some(&(granted, at)), scope, ctx.touch_id_reuse, now), covers),
    ensures
        a.reused == covers,
        a.window == (if covers {
            ctx.touch_id_reuse as int
        } else {
            0
        }),
        !none.reused,
        none.window == 0,
{
}

/// A request whose key has a route goes to that upstream as it came, whether or
/// not the upstreams were asked again; one without goes nowhere, but not before
/// they were. The comment is that of the route, unless it is empty.
pub proof fn route_is_followed(
    upstreams: &Vec<Upstream>,
    routes: &Routes,
    blob: &[u8],
    payload: &[u8],
    refreshed: bool,
    r: (RouteStep, Option<String>),
    found: Option<&super::identities::Route>,
)
    requires
        call_ensures(route_sign, (upstreams, routes, blob, payload, refreshed), r),
        call_ensures(Routes::find, (routes, blob), found),
    ensures
        r.0 is Refresh <==> found is None && !refreshed,
        r.0 is Forward <==> found is Some && found->0.upstream < upstreams@.len(),
        r.0 matches RouteStep::Forward(n, message) ==> n == found->0.upstream && message@
            == payload@,
        r.1 is Some <==> found is Some && found->0.identity.comment@.len() > 0,
        r.1 matches Some(c) ==> c@ == found->0.identity.comment@,
{
}

/// A call to an upstream that gave an answer hands it on; one that waited for too
/// long is a timeout, and any other failure keeps its reason and its upstream.
pub proof fn call_is_classified(n: usize, reply: Result<Vec<u8>, Trouble>, f: Forwarded)
    requires
        call_ensures(forwarded, (n, reply), f),
    ensures
        reply is Ok <==> f is Answered,
        reply matches Ok(a) ==> f->Answered_0 == n && f->Answered_1@ == a@,
        f is TimedOut <==> reply is Err && !(reply->Err_0 is Other),
        f matches Forwarded::TimedOut(m) ==> m == n,
        f is Failed <==> reply is Err && reply->Err_0 is Other,
        f matches Forwarded::Failed(m, why) ==> m == n && why@ == reply->Err_0->Other_0@,
{
}

} // verus!
