//! Which keys there are, and which upstream agent holds each.

use super::{Ctx, IDENTITIES_ANSWER};
use crate::attrib::Attribution;
use crate::enclave::Enclave;
use crate::event::{Event, Kind, Stamp};
use crate::text::{concat2, decimal, number, opt, same};
use crate::wire::{
    be32, number_reads_back, same_bytes, string_bytes, string_reads_back, take_string, take_u32,
    take_u8, Reader, Writer, U32_RANGE,
};
use vstd::prelude::*;
use vstd::slice::slice_to_vec;
use vstd::utf8::encode_utf8;

verus! {

// ---------------------------------------------------------------------------
// Model
// ---------------------------------------------------------------------------

/// A key that an agent offers.
pub struct Identity {
    /// The public key in SSH wire format.
    pub blob: Vec<u8>,
    pub comment: String,
}

/// The contents of an identity.
pub struct IdentityView {
    pub blob: Seq<u8>,
    pub comment: Seq<char>,
}

impl View for Identity {
    type V = IdentityView;

    open spec fn view(&self) -> IdentityView {
        IdentityView { blob: self.blob@, comment: self.comment@ }
    }
}

/// A key with the upstream that owns it.
pub struct Route {
    pub identity: Identity,
    /// The number of the upstream in the configured order.
    pub upstream: usize,
}

/// The contents of a route.
pub struct RouteView {
    pub identity: IdentityView,
    pub upstream: int,
}

impl View for Route {
    type V = RouteView;

    open spec fn view(&self) -> RouteView {
        RouteView { identity: self.identity@, upstream: self.upstream as int }
    }
}

/// The contents of a list of identities.
pub open spec fn ids_view(ids: Seq<Identity>) -> Seq<IdentityView> {
    ids.map_values(|i: Identity| i@)
}

/// The answers of the upstreams in the configured order; `None` for one that
/// did not answer.
pub open spec fn lists_view(lists: Seq<Option<Vec<Identity>>>) -> Seq<Option<Seq<IdentityView>>> {
    lists.map_values(
        |l: Option<Vec<Identity>>|
            match l {
                Some(ids) => Some(ids_view(ids@)),
                None => None,
            },
    )
}

/// The route of the key `blob`.
pub open spec fn route_of(routes: Seq<RouteView>, blob: Seq<u8>) -> Option<RouteView>
    decreases routes.len(),
{
    if routes.len() == 0 {
        None
    } else if routes[0].identity.blob == blob {
        Some(routes[0])
    } else {
        route_of(routes.skip(1), blob)
    }
}

/// The routes with those of one more upstream: the keys that none before it
/// claimed, in the order in which it lists them.
pub open spec fn merged_list(
    routes: Seq<RouteView>,
    upstream: int,
    ids: Seq<IdentityView>,
) -> Seq<RouteView>
    decreases ids.len(),
{
    if ids.len() == 0 {
        routes
    } else {
        let before = merged_list(routes, upstream, ids.drop_last());
        if route_of(before, ids.last().blob) is Some {
            before
        } else {
            before.push(RouteView { identity: ids.last(), upstream })
        }
    }
}

/// The routes that the answers of all upstreams give.
pub open spec fn merged(lists: Seq<Option<Seq<IdentityView>>>) -> Seq<RouteView>
    decreases lists.len(),
{
    if lists.len() == 0 {
        seq![]
    } else {
        let before = merged(lists.drop_last());
        match lists.last() {
            Some(ids) => merged_list(before, lists.len() - 1, ids),
            None => before,
        }
    }
}

// ---------------------------------------------------------------------------
// Routes
// ---------------------------------------------------------------------------

/// Which upstream owns which key, in the order in which the keys are offered.
pub struct Routes {
    pub entries: Vec<Route>,
}

impl View for Routes {
    type V = Seq<RouteView>;

    open spec fn view(&self) -> Seq<RouteView> {
        self.entries@.map_values(|r: Route| r@)
    }
}

impl Routes {
    /// No routes.
    pub fn new() -> (r: Routes)
        ensures
            r@ == Seq::<RouteView>::empty(),
    {
        let r = Routes { entries: Vec::new() };
        assert(r@ =~= seq![]);
        r
    }

    /// The route of the key `blob`.
    pub fn find(&self, blob: &[u8]) -> (r: Option<&Route>)
        ensures
            match r {
                Some(route) => route_of(self@, blob@) == Some(route@),
                None => route_of(self@, blob@) is None,
            },
    {
        let mut i: usize = 0;
        assert(self@.skip(0) =~= self@);
        while i < self.entries.len()
            invariant
                0 <= i <= self.entries@.len(),
                route_of(self@.skip(i as int), blob@) == route_of(self@, blob@),
            decreases self.entries@.len() - i,
        {
            assert(self@.skip(i as int)[0] == self.entries@[i as int]@);
            if same_bytes(self.entries[i].identity.blob.as_slice(), blob) {
                return Some(&self.entries[i]);
            }
            assert(self@.skip(i as int).skip(1) =~= self@.skip(i + 1));
            i = i + 1;
        }
        None
    }
}

/// Merge what the upstreams answered, in the configured order.
///
/// The first upstream to claim a key owns it. One that did not answer claims
/// nothing.
pub fn refresh_identities(lists: &Vec<Option<Vec<Identity>>>) -> (r: Routes)
    ensures
        r@ == merged(lists_view(lists@)),
{
    let mut routes = Routes::new();
    let ghost all = lists_view(lists@);
    let mut n: usize = 0;
    while n < lists.len()
        invariant
            0 <= n <= lists@.len(),
            all == lists_view(lists@),
            routes@ == merged(all.take(n as int)),
        decreases lists@.len() - n,
    {
        assert(all.take(n + 1).drop_last() =~= all.take(n as int));
        let ghost before = routes@;
        match &lists[n] {
            Some(ids) => {
                let ghost views = ids_view(ids@);
                assert(views.take(0) =~= seq![]);
                let mut i: usize = 0;
                while i < ids.len()
                    invariant
                        0 <= i <= ids@.len(),
                        views == ids_view(ids@),
                        routes@ == merged_list(before, n as int, views.take(i as int)),
                    decreases ids@.len() - i,
                {
                    assert(views.take(i + 1).drop_last() =~= views.take(i as int));
                    let id = &ids[i];
                    if routes.find(id.blob.as_slice()).is_none() {
                        let route = Route {
                            identity: Identity {
                                blob: slice_to_vec(id.blob.as_slice()),
                                comment: id.comment.clone(),
                            },
                            upstream: n,
                        };
                        let ghost old_routes = routes@;
                        routes.entries.push(route);
                        assert(routes@ =~= old_routes.push(route@));
                    }
                    i = i + 1;
                }
                assert(views.take(ids@.len() as int) =~= views);
            },
            None => {},
        }
        n = n + 1;
    }
    assert(all.take(lists@.len() as int) =~= all);
    routes
}

// ---------------------------------------------------------------------------
// The answer to a client
// ---------------------------------------------------------------------------

/// An identity on the wire.
pub open spec fn identity_bytes(id: IdentityView) -> Seq<u8> {
    string_bytes(id.blob) + string_bytes(encode_utf8(id.comment))
}

/// Identities on the wire, one behind the other.
pub open spec fn identities_bytes(ids: Seq<IdentityView>) -> Seq<u8>
    decreases ids.len(),
{
    if ids.len() == 0 {
        seq![]
    } else {
        identities_bytes(ids.drop_last()) + identity_bytes(ids.last())
    }
}

/// The message that lists identities.
pub open spec fn answer_bytes(ids: Seq<IdentityView>) -> Seq<u8> {
    seq![IDENTITIES_ANSWER] + be32(ids.len() as int % 0x1_0000_0000) + identities_bytes(ids)
}

/// The keys that a client is offered: our own first, so that ssh tries it before
/// those of the upstreams.
pub open spec fn offered(own: Option<IdentityView>, routes: Seq<RouteView>) -> Seq<IdentityView> {
    let others = routes.map_values(|r: RouteView| r.identity);
    match own {
        Some(id) => seq![id] + others,
        None => others,
    }
}

/// The request comes from the daemon's own health probe.
pub open spec fn self_probe(who: Attribution) -> bool {
    who.process is Some && opt(who.process->0.name) == Some("keywardd"@)
}

/// Answer a client that asks which keys there are, with `routes` as they were
/// just refreshed, and say what to record.
///
/// Listings carry no signature and happen several times per connection, so they
/// are recorded only on demand, and never for the health probe.
pub fn handle_request_identities<'a>(
    ctx: &Ctx,
    routes: &Routes,
    who: &'a Attribution,
    stamp: Stamp,
) -> (r: (Vec<u8>, Option<Event<'a>>))
    ensures
        r.0@ == answer_bytes(offered(ctx.own_identity(), routes@)),
        r.1 is Some <==> ctx.log_lists && !self_probe(*who),
        r.1 matches Some(e) ==> {
            &&& e.stamp == stamp
            &&& e.kind == Kind::ListIdentities
            &&& e.who == who
            &&& e.key_fp is None
            &&& e.key_comment is None
            &&& e.upstream is None
            &&& e.bound_host_fp is None
            &&& e.scope is None
            &&& !e.reused
            &&& e.outcome@ == decimal(offered(ctx.own_identity(), routes@).len()) + " keys"@
        },
{
    let ghost ids = offered(ctx.own_identity(), routes@);
    let own: u128 = if ctx.enclave.is_some() {
        1
    } else {
        0
    };
    let listed: usize = routes.entries.len();
    let count: u128 = listed as u128 + own;
    let mut w = Writer::new();
    w.u8(IDENTITIES_ANSWER);
    w.u32((count % 0x1_0000_0000) as u32);
    let ghost head = w@;
    proof {
        assert(head =~= seq![IDENTITIES_ANSWER] + be32(ids.len() as int % 0x1_0000_0000));
        assert(identities_bytes(ids.take(0)) =~= seq![]);
    }
    match &ctx.enclave {
        Some(e) => {
            w.string(e.ssh_public_blob().as_slice());
            w.string(e.comment_str().as_bytes());
            proof {
                assert(ids.take(1).drop_last() =~= ids.take(0));
                assert(ids.take(1).last() == ctx.own_identity()->0);
                assert(w@ =~= head + identities_bytes(ids.take(1)));
            }
        },
        None => {
            assert(w@ =~= head + identities_bytes(ids.take(0)));
        },
    }
    let mut i: usize = 0;
    while i < listed
        invariant
            listed == routes.entries@.len(),
            0 <= i <= listed,
            own == (if ctx.enclave is Some {
                1int
            } else {
                0
            }),
            ids == offered(ctx.own_identity(), routes@),
            w@ == head + identities_bytes(ids.take(own + i)),
        decreases listed - i,
    {
        let id = &routes.entries[i].identity;
        w.string(id.blob.as_slice());
        w.string(id.comment.as_str().as_bytes());
        proof {
            assert(ids.take(own + i + 1).drop_last() =~= ids.take(own + i));
            assert(routes@[i as int] == routes.entries@[i as int]@);
            assert(ids.take(own + i + 1).last() == id@);
            assert(w@ =~= head + identities_bytes(ids.take(own + i + 1)));
        }
        i = i + 1;
    }
    assert(ids.take(own + listed) =~= ids);

    let probe = match &who.process {
        Some(p) => match &p.name {
            Some(n) => same(n.as_str(), "keywardd"),
            None => false,
        },
        None => false,
    };
    let event = if ctx.log_lists && !probe {
        let n = number(count);
        Some(
            Event {
                stamp,
                kind: Kind::ListIdentities,
                who,
                key_fp: None,
                key_comment: None,
                upstream: None,
                bound_host_fp: None,
                scope: None,
                reused: false,
                outcome: concat2(n.as_str(), " keys"),
            },
        )
    } else {
        None
    };
    (w.buf, event)
}

// ---------------------------------------------------------------------------
// The answer of an upstream
// ---------------------------------------------------------------------------

/// The keys and comments of the first `n` identities in `s`.
pub open spec fn listed_in(n: nat, s: Seq<u8>) -> Option<Seq<(Seq<u8>, Seq<u8>)>>
    decreases n,
{
    if n == 0 {
        Some(seq![])
    } else {
        match take_string(s) {
            Some((blob, rest)) => match take_string(rest) {
                Some((comment, tail)) => match listed_in((n - 1) as nat, tail) {
                    Some(others) => Some(seq![(blob, comment)] + others),
                    None => None,
                },
                None => None,
            },
            None => None,
        }
    }
}

/// The keys and comments in a message that lists identities.
pub open spec fn parsed_answer(reply: Seq<u8>) -> Option<Seq<(Seq<u8>, Seq<u8>)>> {
    match take_u8(reply) {
        Some((kind, rest)) => match take_u32(rest) {
            Some((n, tail)) => if kind == IDENTITIES_ANSWER {
                listed_in(n as nat, tail)
            } else {
                None
            },
            None => None,
        },
        None => None,
    }
}

/// The keys and comments that were read.
pub open spec fn pairs_view(v: Seq<(Vec<u8>, Vec<u8>)>) -> Seq<(Seq<u8>, Seq<u8>)> {
    v.map_values(|p: (Vec<u8>, Vec<u8>)| (p.0@, p.1@))
}

/// Read the keys and comments out of what an upstream answered.
///
/// Anything but a complete list is no answer.
pub fn parse_identities(reply: &[u8]) -> (r: Option<Vec<(Vec<u8>, Vec<u8>)>>)
    ensures
        match parsed_answer(reply@) {
            Some(ids) => r is Some && pairs_view(r->0@) == ids,
            None => r is None,
        },
{
    let mut rd = Reader::new(reply);
    let kind = match rd.u8() {
        Some(k) => k,
        None => return None,
    };
    let n: u32 = match rd.u32() {
        Some(n) => n,
        None => return None,
    };
    if kind != IDENTITIES_ANSWER {
        return None;
    }
    let ghost body = rd@;
    let mut ids: Vec<(Vec<u8>, Vec<u8>)> = Vec::new();
    let mut i: u32 = 0;
    assert(pairs_view(ids@) =~= seq![]);
    proof {
        if listed_in(n as nat, body) is Some {
            assert(listed_in(n as nat, body)->0 =~= pairs_view(ids@) + listed_in(n as nat, body)->0);
        }
    }
    while i < n
        invariant
            0 <= i <= n,
            rd.wf(),
            listed_in(n as nat, body) == (match listed_in((n - i) as nat, rd@) {
                Some(rest) => Some(pairs_view(ids@) + rest),
                None => None,
            }),
            parsed_answer(reply@) == listed_in(n as nat, body),
        decreases n - i,
    {
        let blob = match rd.string() {
            Some(b) => b,
            None => return None,
        };
        let comment = match rd.string() {
            Some(c) => c,
            None => return None,
        };
        let ghost before = pairs_view(ids@);
        ids.push((slice_to_vec(blob), slice_to_vec(comment)));
        proof {
            assert(pairs_view(ids@) =~= before.push((blob@, comment@)));
            match listed_in((n - i - 1) as nat, rd@) {
                Some(rest) => {
                    assert(before + (seq![(blob@, comment@)] + rest) =~= pairs_view(ids@) + rest);
                },
                None => {},
            }
        }
        i = i + 1;
    }
    assert(pairs_view(ids@) + seq![] =~= pairs_view(ids@));
    Some(ids)
}

// ---------------------------------------------------------------------------
// Laws
// ---------------------------------------------------------------------------

/// The first identity in `ids` with the key `blob`.
pub open spec fn first_in(ids: Seq<IdentityView>, blob: Seq<u8>) -> Option<IdentityView>
    decreases ids.len(),
{
    if ids.len() == 0 {
        None
    } else if ids[0].blob == blob {
        Some(ids[0])
    } else {
        first_in(ids.skip(1), blob)
    }
}

/// The first upstream whose answer holds the key `blob`.
pub open spec fn is_first_claim(
    lists: Seq<Option<Seq<IdentityView>>>,
    n: int,
    blob: Seq<u8>,
) -> bool {
    &&& 0 <= n < lists.len()
    &&& lists[n] is Some
    &&& first_in(lists[n]->0, blob) is Some
    &&& forall|k: int|
        0 <= k < n ==> (#[trigger] lists[k] is None || first_in(lists[k]->0, blob) is None)
}

proof fn lemma_route_of_push(routes: Seq<RouteView>, r: RouteView, blob: Seq<u8>)
    ensures
        route_of(routes.push(r), blob) == (if route_of(routes, blob) is Some {
            route_of(routes, blob)
        } else if r.identity.blob == blob {
            Some(r)
        } else {
            None
        }),
    decreases routes.len(),
{
    if routes.len() == 0 {
        assert(routes.push(r).skip(1) =~= seq![]);
        assert(route_of(routes.push(r).skip(1), blob) is None);
    } else {
        lemma_route_of_push(routes.skip(1), r, blob);
        assert(routes.push(r).skip(1) =~= routes.skip(1).push(r));
    }
}

proof fn lemma_first_in_push(ids: Seq<IdentityView>, id: IdentityView, blob: Seq<u8>)
    ensures
        first_in(ids.push(id), blob) == (if first_in(ids, blob) is Some {
            first_in(ids, blob)
        } else if id.blob == blob {
            Some(id)
        } else {
            None
        }),
    decreases ids.len(),
{
    if ids.len() == 0 {
        assert(ids.push(id).skip(1) =~= seq![]);
        assert(first_in(ids.push(id).skip(1), blob) is None);
    } else {
        lemma_first_in_push(ids.skip(1), id, blob);
        assert(ids.push(id).skip(1) =~= ids.skip(1).push(id));
    }
}

proof fn lemma_merged_list(
    routes: Seq<RouteView>,
    upstream: int,
    ids: Seq<IdentityView>,
    blob: Seq<u8>,
)
    ensures
        route_of(merged_list(routes, upstream, ids), blob) == (if route_of(routes, blob) is Some {
            route_of(routes, blob)
        } else {
            match first_in(ids, blob) {
                Some(identity) => Some(RouteView { identity, upstream }),
                None => None,
            }
        }),
    decreases ids.len(),
{
    if ids.len() > 0 {
        let init = ids.drop_last();
        let id = ids.last();
        lemma_merged_list(routes, upstream, init, blob);
        lemma_first_in_push(init, id, blob);
        assert(ids =~= init.push(id));
        let before = merged_list(routes, upstream, init);
        lemma_merged_list(routes, upstream, init, id.blob);
        lemma_route_of_push(before, RouteView { identity: id, upstream }, blob);
    }
}

/// The first upstream to claim a key owns it, under the comment it first gives
/// it; so the configured order decides who signs where several hold a key.
pub proof fn first_claim_owns(
    lists: Seq<Option<Seq<IdentityView>>>,
    n: int,
    blob: Seq<u8>,
)
    requires
        is_first_claim(lists, n, blob),
    ensures
        route_of(merged(lists), blob) == Some(
            RouteView { identity: first_in(lists[n]->0, blob)->0, upstream: n },
        ),
    decreases lists.len(),
{
    let init = lists.drop_last();
    if n == lists.len() - 1 {
        assert forall|k: int| 0 <= k < init.len() implies (#[trigger] init[k] is None || first_in(
            init[k]->0,
            blob,
        ) is None) by {
            assert(lists[k] is None || first_in(lists[k]->0, blob) is None);
        }
        unclaimed_has_no_route(init, blob);
        lemma_merged_list(merged(init), n, lists[n]->0, blob);
    } else {
        assert forall|k: int| 0 <= k < n implies (#[trigger] init[k] is None || first_in(
            init[k]->0,
            blob,
        ) is None) by {
            assert(lists[k] is None || first_in(lists[k]->0, blob) is None);
        }
        assert(init[n] == lists[n]);
        first_claim_owns(init, n, blob);
        if lists.last() is Some {
            lemma_merged_list(merged(init), lists.len() - 1, lists.last()->0, blob);
        }
    }
}

/// A key that no upstream claims has no route.
pub proof fn unclaimed_has_no_route(lists: Seq<Option<Seq<IdentityView>>>, blob: Seq<u8>)
    requires
        forall|k: int|
            0 <= k < lists.len() ==> (#[trigger] lists[k] is None || first_in(
                lists[k]->0,
                blob,
            ) is None),
    ensures
        route_of(merged(lists), blob) is None,
    decreases lists.len(),
{
    if lists.len() > 0 {
        let init = lists.drop_last();
        assert forall|k: int| 0 <= k < init.len() implies (#[trigger] init[k] is None || first_in(
            init[k]->0,
            blob,
        ) is None) by {
            assert(lists[k] is None || first_in(lists[k]->0, blob) is None);
        }
        unclaimed_has_no_route(init, blob);
        assert(lists.last() == lists[lists.len() - 1]);
        if lists.last() is Some {
            lemma_merged_list(merged(init), lists.len() - 1, lists.last()->0, blob);
        }
    }
}

/// No key is routed twice.
pub open spec fn distinct_keys(routes: Seq<RouteView>) -> bool {
    forall|i: int, j: int|
        0 <= i < j < routes.len() ==> #[trigger] routes[i].identity.blob
            != #[trigger] routes[j].identity.blob
}

proof fn lemma_route_of_none(routes: Seq<RouteView>, blob: Seq<u8>)
    requires
        route_of(routes, blob) is None,
    ensures
        forall|i: int| 0 <= i < routes.len() ==> (#[trigger] routes[i]).identity.blob != blob,
    decreases routes.len(),
{
    if routes.len() > 0 {
        lemma_route_of_none(routes.skip(1), blob);
        assert forall|i: int| 0 <= i < routes.len() implies (#[trigger] routes[i]).identity.blob
            != blob by {
            if i > 0 {
                assert(routes.skip(1)[i - 1] == routes[i]);
            }
        }
    }
}

proof fn lemma_merged_list_distinct(
    routes: Seq<RouteView>,
    upstream: int,
    ids: Seq<IdentityView>,
)
    requires
        distinct_keys(routes),
    ensures
        distinct_keys(merged_list(routes, upstream, ids)),
        routes.len() <= merged_list(routes, upstream, ids).len(),
        forall|i: int|
            routes.len() <= i < merged_list(routes, upstream, ids).len() ==> (
            #[trigger] merged_list(routes, upstream, ids)[i]).upstream == upstream,
        forall|i: int|
            0 <= i < routes.len() ==> #[trigger] merged_list(routes, upstream, ids)[i]
                == routes[i],
    decreases ids.len(),
{
    if ids.len() > 0 {
        lemma_merged_list_distinct(routes, upstream, ids.drop_last());
        let before = merged_list(routes, upstream, ids.drop_last());
        if route_of(before, ids.last().blob) is None {
            lemma_route_of_none(before, ids.last().blob);
        }
    }
}

/// However often a key is claimed, it is routed once, and to an upstream that
/// exists.
pub proof fn merged_is_distinct(lists: Seq<Option<Seq<IdentityView>>>)
    ensures
        distinct_keys(merged(lists)),
        forall|i: int|
            0 <= i < merged(lists).len() ==> 0 <= (#[trigger] merged(lists)[i]).upstream
                < lists.len(),
    decreases lists.len(),
{
    if lists.len() > 0 {
        let init = lists.drop_last();
        merged_is_distinct(init);
        if lists.last() is Some {
            lemma_merged_list_distinct(merged(init), lists.len() - 1, lists.last()->0);
            let all = merged(lists);
            assert forall|i: int| 0 <= i < all.len() implies 0 <= (#[trigger] all[i]).upstream
                < lists.len() by {
                if i < merged(init).len() {
                    assert(all[i] == merged(init)[i]);
                }
            }
        }
    }
}

/// Our own key is offered before all others, and those keep their order.
pub proof fn own_key_comes_first(own: IdentityView, routes: Seq<RouteView>)
    ensures
        offered(Some(own), routes).len() == routes.len() + 1,
        offered(Some(own), routes)[0] == own,
        forall|i: int|
            0 <= i < routes.len() ==> #[trigger] offered(Some(own), routes)[i + 1]
                == routes[i].identity,
{
}

/// The keys and comments of identities, as bytes.
pub open spec fn wire_pairs(ids: Seq<IdentityView>) -> Seq<(Seq<u8>, Seq<u8>)> {
    ids.map_values(|id: IdentityView| (id.blob, encode_utf8(id.comment)))
}

/// The lengths of an identity fit their length fields.
pub open spec fn fits_wire(id: IdentityView) -> bool {
    id.blob.len() < U32_RANGE && encode_utf8(id.comment).len() < U32_RANGE
}

proof fn lemma_identities_front(ids: Seq<IdentityView>)
    requires
        ids.len() > 0,
    ensures
        identities_bytes(ids) == identity_bytes(ids[0]) + identities_bytes(ids.skip(1)),
    decreases ids.len(),
{
    if ids.len() == 1 {
        assert(ids.drop_last() =~= seq![]);
        assert(ids.skip(1) =~= seq![]);
        assert(identities_bytes(ids) =~= identity_bytes(ids[0]) + identities_bytes(ids.skip(1)));
    } else {
        lemma_identities_front(ids.drop_last());
        assert(ids.drop_last().skip(1) =~= ids.skip(1).drop_last());
        assert(identities_bytes(ids) =~= identity_bytes(ids[0]) + identities_bytes(ids.skip(1)));
    }
}

proof fn lemma_listed_back(ids: Seq<IdentityView>)
    requires
        forall|i: int| 0 <= i < ids.len() ==> fits_wire(#[trigger] ids[i]),
    ensures
        listed_in(ids.len(), identities_bytes(ids)) == Some(wire_pairs(ids)),
    decreases ids.len(),
{
    let pairs = wire_pairs(ids);
    if ids.len() == 0 {
        assert(pairs =~= seq![]);
    } else {
        lemma_identities_front(ids);
        let rest = ids.skip(1);
        lemma_listed_back(rest);
        let id = ids[0];
        let tail = identities_bytes(rest);
        assert(fits_wire(id));
        string_reads_back(id.blob, string_bytes(encode_utf8(id.comment)) + tail);
        string_reads_back(encode_utf8(id.comment), tail);
        assert(identities_bytes(ids) =~= string_bytes(id.blob) + (string_bytes(
            encode_utf8(id.comment),
        ) + tail));
        assert(pairs =~= seq![(id.blob, encode_utf8(id.comment))] + wire_pairs(rest));
    }
}

/// A list of identities is read back as it was written.
pub proof fn answer_reads_back(ids: Seq<IdentityView>)
    requires
        ids.len() < U32_RANGE,
        forall|i: int| 0 <= i < ids.len() ==> fits_wire(#[trigger] ids[i]),
    ensures
        parsed_answer(answer_bytes(ids)) == Some(wire_pairs(ids)),
{
    let n = ids.len() as u32;
    assert(ids.len() as int % 0x1_0000_0000 == n as int);
    assert(answer_bytes(ids) == seq![IDENTITIES_ANSWER] + be32(n as int) + identities_bytes(ids));
    lemma_answer_body(n, identities_bytes(ids));
    lemma_listed_back(ids);
}

proof fn lemma_answer_body(n: u32, body: Seq<u8>)
    ensures
        parsed_answer(seq![IDENTITIES_ANSWER] + be32(n as int) + body) == listed_in(
            n as nat,
            body,
        ),
{
    let reply = seq![IDENTITIES_ANSWER] + be32(n as int) + body;
    assert(reply.skip(1) =~= be32(n as int) + body);
    number_reads_back(n, body);
}

/// A client that lists the keys reads our own first, where there is one, then
/// those of all routes in their order, each with its comment, and no others.
pub proof fn listing_is_own_key_and_all_routes(
    ctx: &Ctx,
    own: Vec<u8>,
    routes: &Routes,
    who: &Attribution,
    stamp: Stamp,
    r: (Vec<u8>, Option<Event>),
    reply: &[u8],
    read: Option<Vec<(Vec<u8>, Vec<u8>)>>,
)
    requires
        ctx.enclave is Some ==> {
            &&& call_ensures(Enclave::ssh_public_blob, (&ctx.enclave->0,), own)
            &&& own@.len() < U32_RANGE
            &&& encode_utf8(ctx.enclave->0.comment@).len() < U32_RANGE
        },
        routes.entries@.len() + 1 < U32_RANGE,
        forall|i: int|
            0 <= i < routes.entries@.len() ==> fits_wire((#[trigger] routes.entries@[i]).identity@),
        call_ensures(handle_request_identities, (ctx, routes, who, stamp), r),
        reply@ == r.0@,
        call_ensures(parse_identities, (reply,), read),
    ensures
        r.0@[0] == 12,
        read is Some,
        ({
            let k: int = if ctx.enclave is Some {
                1
            } else {
                0
            };
            let keys = read->0@;
            &&& keys.len() == k + routes.entries@.len()
            &&& forall|i: int|
                0 <= i < routes.entries@.len() ==> {
                    &&& keys[k + i].0@ == (#[trigger] routes.entries@[i]).identity.blob@
                    &&& keys[k + i].1@ == encode_utf8(routes.entries@[i].identity.comment@)
                }
            &&& ctx.enclave is Some ==> keys[0].0@ == own@ && keys[0].1@ == encode_utf8(
                ctx.enclave->0.comment@,
            )
        }),
{
    let ids = offered(ctx.own_identity(), routes@);
    let k: int = if ctx.enclave is Some {
        1
    } else {
        0
    };
    assert(ids.len() == k + routes.entries@.len());
    assert forall|i: int| 0 <= i < routes.entries@.len() implies ids[k + i] == (
    #[trigger] routes.entries@[i]).identity@ by {
        assert(routes@[i] == routes.entries@[i]@);
    }
    assert forall|i: int| 0 <= i < ids.len() implies fits_wire(#[trigger] ids[i]) by {
        if i >= k {
            assert(ids[k + (i - k)] == routes.entries@[i - k].identity@);
        }
    }
    answer_reads_back(ids);
    let keys = read->0@;
    assert(pairs_view(keys) == wire_pairs(ids));
    assert(pairs_view(keys).len() == keys.len());
    assert forall|i: int| 0 <= i < ids.len() implies (#[trigger] keys[i]).0@ == ids[i].blob
        && keys[i].1@ == encode_utf8(ids[i].comment) by {
        assert(pairs_view(keys)[i] == wire_pairs(ids)[i]);
    }
    assert forall|i: int| 0 <= i < routes.entries@.len() implies {
        &&& keys[k + i].0@ == (#[trigger] routes.entries@[i]).identity.blob@
        &&& keys[k + i].1@ == encode_utf8(routes.entries@[i].identity.comment@)
    } by {
        assert(ids[k + i] == routes.entries@[i].identity@);
    }
}

/// A listing is recorded just where that is asked for and the caller is not the
/// daemon's own probe, with the number of keys that were offered.
pub proof fn listing_is_recorded(
    ctx: &Ctx,
    routes: &Routes,
    who: &Attribution,
    stamp: Stamp,
    r: (Vec<u8>, Option<Event>),
    count: u128,
    digits: String,
)
    requires
        call_ensures(handle_request_identities, (ctx, routes, who, stamp), r),
        count == routes.entries@.len() + (if ctx.enclave is Some {
            1int
        } else {
            0
        }),
        call_ensures(number, (count,), digits),
    ensures
        r.1 is Some <==> ctx.log_lists && !(who.process is Some && who.process->0.name is Some
            && who.process->0.name->0@ == "keywardd"@),
        r.1 matches Some(e) ==> {
            &&& e.kind == Kind::ListIdentities
            &&& e.stamp == stamp
            &&& e.who == who
            &&& e.outcome@ == digits@ + " keys"@
            &&& e.key_fp is None && e.key_comment is None && e.upstream is None
            &&& e.bound_host_fp is None && e.scope is None && !e.reused
        },
{
    assert(offered(ctx.own_identity(), routes@).len() == count);
}

proof fn lemma_first_in_some(ids: Seq<IdentityView>, i: int)
    requires
        0 <= i < ids.len(),
    ensures
        first_in(ids, ids[i].blob) is Some,
    decreases ids.len(),
{
    if ids[0].blob != ids[i].blob {
        lemma_first_in_some(ids.skip(1), i - 1);
        assert(ids.skip(1)[i - 1] == ids[i]);
    }
}

proof fn lemma_first_in_holds(ids: Seq<IdentityView>, blob: Seq<u8>)
    requires
        first_in(ids, blob) is Some,
    ensures
        first_in(ids, blob)->0.blob == blob,
        exists|i: int| 0 <= i < ids.len() && #[trigger] ids[i] == first_in(ids, blob)->0,
    decreases ids.len(),
{
    if ids[0].blob != blob {
        lemma_first_in_holds(ids.skip(1), blob);
        let i = choose|i: int|
            0 <= i < ids.skip(1).len() && #[trigger] ids.skip(1)[i] == first_in(
                ids.skip(1),
                blob,
            )->0;
        assert(ids[i + 1] == first_in(ids, blob)->0);
    }
}

proof fn lemma_route_of_holds(routes: Seq<RouteView>, blob: Seq<u8>)
    requires
        route_of(routes, blob) is Some,
    ensures
        exists|i: int|
            0 <= i < routes.len() && #[trigger] routes[i] == route_of(routes, blob)->0
                && routes[i].identity.blob == blob,
    decreases routes.len(),
{
    if routes[0].identity.blob != blob {
        lemma_route_of_holds(routes.skip(1), blob);
        let i = choose|i: int|
            0 <= i < routes.skip(1).len() && #[trigger] routes.skip(1)[i] == route_of(
                routes.skip(1),
                blob,
            )->0 && routes.skip(1)[i].identity.blob == blob;
        assert(routes[i + 1] == route_of(routes, blob)->0);
    }
}

proof fn lemma_claimed_is_routed(lists: Seq<Option<Seq<IdentityView>>>, n: int, i: int)
    requires
        0 <= n < lists.len(),
        lists[n] is Some,
        0 <= i < lists[n]->0.len(),
    ensures
        route_of(merged(lists), lists[n]->0[i].blob) is Some,
    decreases lists.len(),
{
    let blob = lists[n]->0[i].blob;
    let init = lists.drop_last();
    if n == lists.len() - 1 {
        lemma_first_in_some(lists[n]->0, i);
    } else {
        assert(init[n] == lists[n]);
        lemma_claimed_is_routed(init, n, i);
    }
    if lists.last() is Some {
        lemma_merged_list(merged(init), lists.len() - 1, lists.last()->0, blob);
    }
}

/// The list that the upstream with the number `n` gave holds `id`.
pub open spec fn claims(lists: Seq<Option<Vec<Identity>>>, n: int, id: IdentityView) -> bool {
    &&& 0 <= n < lists.len()
    &&& lists[n] is Some
    &&& exists|i: int| 0 <= i < lists[n]->0@.len() && (#[trigger] lists[n]->0@[i])@ == id
}

/// Every key that some upstream lists has a route.
pub proof fn every_claim_is_routed(
    lists: &Vec<Option<Vec<Identity>>>,
    routes: Routes,
    n: int,
    i: int,
)
    requires
        call_ensures(refresh_identities, (lists,), routes),
        0 <= n < lists@.len(),
        lists@[n] is Some,
        0 <= i < lists@[n]->0@.len(),
    ensures
        exists|j: int|
            0 <= j < routes.entries@.len() && (#[trigger] routes.entries@[j]).identity.blob@
                == lists@[n]->0@[i].blob@,
{
    let all = lists_view(lists@);
    let blob = lists@[n]->0@[i].blob@;
    assert(all[n] == Some(ids_view(lists@[n]->0@)));
    assert(all[n]->0[i].blob == blob);
    lemma_claimed_is_routed(all, n, i);
    lemma_route_of_holds(routes@, blob);
    let j = choose|j: int|
        0 <= j < routes@.len() && #[trigger] routes@[j] == route_of(routes@, blob)->0
            && routes@[j].identity.blob == blob;
    assert(routes@[j] == routes.entries@[j]@);
    assert(routes.entries@[j].identity.blob@ == blob);
}

proof fn lemma_routed_is_claimed(lists: Seq<Option<Seq<IdentityView>>>, j: int)
    requires
        0 <= j < merged(lists).len(),
    ensures
        ({
            let r = merged(lists)[j];
            &&& 0 <= r.upstream < lists.len()
            &&& lists[r.upstream] is Some
            &&& exists|i: int|
                0 <= i < lists[r.upstream]->0.len() && #[trigger] lists[r.upstream]->0[i]
                    == r.identity
        }),
    decreases lists.len(),
{
    let init = lists.drop_last();
    if lists.last() is None {
        lemma_routed_is_claimed(init, j);
        assert(init[merged(init)[j].upstream] == lists[merged(init)[j].upstream]);
    } else {
        let ids = lists.last()->0;
        merged_is_distinct(init);
        lemma_merged_list_distinct(merged(init), lists.len() - 1, ids);
        if j < merged(init).len() {
            lemma_routed_is_claimed(init, j);
            assert(init[merged(init)[j].upstream] == lists[merged(init)[j].upstream]);
        } else {
            lemma_new_routes_are_listed(merged(init), lists.len() - 1, ids, j);
        }
    }
}

proof fn lemma_new_routes_are_listed(
    routes: Seq<RouteView>,
    upstream: int,
    ids: Seq<IdentityView>,
    j: int,
)
    requires
        routes.len() <= j < merged_list(routes, upstream, ids).len(),
    ensures
        merged_list(routes, upstream, ids)[j].upstream == upstream,
        exists|i: int|
            0 <= i < ids.len() && #[trigger] ids[i] == merged_list(
                routes,
                upstream,
                ids,
            )[j].identity,
    decreases ids.len(),
{
    if ids.len() > 0 {
        let init = ids.drop_last();
        let before = merged_list(routes, upstream, init);
        if j < before.len() {
            lemma_new_routes_are_listed(routes, upstream, init, j);
            let i = choose|i: int| 0 <= i < init.len() && #[trigger] init[i] == before[j].identity;
            assert(ids[i] == before[j].identity);
        } else {
            assert(ids[ids.len() - 1] == ids.last());
        }
    }
}

/// No upstream before the one that a route leads to lists the key of the route.
pub proof fn every_route_is_the_first_claim(
    lists: &Vec<Option<Vec<Identity>>>,
    routes: Routes,
    j: int,
    k: int,
    i: int,
)
    requires
        call_ensures(refresh_identities, (lists,), routes),
        0 <= j < routes.entries@.len(),
        0 <= k < routes.entries@[j].upstream,
        k < lists@.len(),
        lists@[k] is Some,
        0 <= i < lists@[k]->0@.len(),
    ensures
        lists@[k]->0@[i].blob@ != routes.entries@[j].identity.blob@,
{
    let all = lists_view(lists@);
    let r = routes@[j];
    assert(r == routes.entries@[j]@);
    if lists@[k]->0@[i].blob@ == r.identity.blob {
        assert(all[k] == Some(ids_view(lists@[k]->0@)));
        assert(all[k]->0[i].blob == r.identity.blob);
        lemma_first_in_some(all[k]->0, i);
        lemma_first_claim_exists(all, r.identity.blob, k);
        let n = choose|n: int| #[trigger] is_first_claim(all, n, r.identity.blob) && n <= k;
        first_claim_owns(all, n, r.identity.blob);
        lemma_route_of_holds(routes@, r.identity.blob);
        merged_is_distinct(all);
        let h = choose|h: int|
            0 <= h < routes@.len() && #[trigger] routes@[h] == route_of(
                routes@,
                r.identity.blob,
            )->0 && routes@[h].identity.blob == r.identity.blob;
        assert(h == j);
    }
}

proof fn lemma_first_claim_exists(
    lists: Seq<Option<Seq<IdentityView>>>,
    blob: Seq<u8>,
    k: int,
)
    requires
        0 <= k < lists.len(),
        lists[k] is Some,
        first_in(lists[k]->0, blob) is Some,
    ensures
        exists|n: int| #[trigger] is_first_claim(lists, n, blob) && n <= k,
    decreases k,
{
    if exists|h: int|
        0 <= h < k && #[trigger] lists[h] is Some && first_in(lists[h]->0, blob) is Some {
        let h = choose|h: int|
            0 <= h < k && #[trigger] lists[h] is Some && first_in(lists[h]->0, blob) is Some;
        lemma_first_claim_exists(lists, blob, h);
    } else {
        assert(is_first_claim(lists, k, blob));
    }
}

/// Every route is one of the identities that its upstream listed, no key is
/// routed twice, and the upstreams come in their order.
pub proof fn every_route_is_a_claim(
    lists: &Vec<Option<Vec<Identity>>>,
    routes: Routes,
    j: int,
    h: int,
)
    requires
        call_ensures(refresh_identities, (lists,), routes),
        0 <= j < routes.entries@.len(),
        0 <= h < routes.entries@.len(),
    ensures
        claims(lists@, routes.entries@[j].upstream as int, routes.entries@[j].identity@),
        j != h ==> routes.entries@[j].identity.blob@ != routes.entries@[h].identity.blob@,
        j < h ==> routes.entries@[j].upstream <= routes.entries@[h].upstream,
{
    let all = lists_view(lists@);
    let r = routes@[j];
    assert(r == routes.entries@[j]@);
    assert(routes@[h] == routes.entries@[h]@);
    lemma_routed_is_claimed(all, j);
    let n = r.upstream;
    assert(all[n] == Some(ids_view(lists@[n]->0@)));
    let i = choose|i: int| 0 <= i < all[n]->0.len() && #[trigger] all[n]->0[i] == r.identity;
    assert(lists@[n]->0@[i]@ == r.identity);
    merged_is_distinct(all);
    if j < h {
        assert(routes@[j].identity.blob != routes@[h].identity.blob);
    } else if h < j {
        assert(routes@[h].identity.blob != routes@[j].identity.blob);
    }
    lemma_upstreams_ascend(all);
}

proof fn lemma_upstreams_ascend(lists: Seq<Option<Seq<IdentityView>>>)
    ensures
        forall|i: int, j: int|
            0 <= i < j < merged(lists).len() ==> (#[trigger] merged(lists)[i]).upstream <= (
            #[trigger] merged(lists)[j]).upstream,
    decreases lists.len(),
{
    if lists.len() > 0 {
        let init = lists.drop_last();
        lemma_upstreams_ascend(init);
        merged_is_distinct(init);
        if lists.last() is Some {
            lemma_merged_list_distinct(merged(init), lists.len() - 1, lists.last()->0);
            let all = merged(lists);
            assert forall|i: int, j: int| 0 <= i < j < all.len() implies (
            #[trigger] all[i]).upstream <= (#[trigger] all[j]).upstream by {
                if i < merged(init).len() {
                    assert(all[i] == merged(init)[i]);
                }
                if j < merged(init).len() {
                    assert(all[j] == merged(init)[j]);
                }
            }
        }
    }
}

proof fn lemma_fresh_list(routes: Seq<RouteView>, upstream: int, ids: Seq<IdentityView>)
    requires
        forall|i: int, j: int|
            0 <= i < j < ids.len() ==> (#[trigger] ids[i]).blob != (#[trigger] ids[j]).blob,
        forall|i: int| 0 <= i < ids.len() ==> route_of(routes, (#[trigger] ids[i]).blob) is None,
    ensures
        merged_list(routes, upstream, ids) == routes + ids.map_values(
            |id: IdentityView| RouteView { identity: id, upstream },
        ),
    decreases ids.len(),
{
    let new = ids.map_values(|id: IdentityView| RouteView { identity: id, upstream });
    if ids.len() == 0 {
        assert(routes + new =~= routes);
    } else {
        let init = ids.drop_last();
        assert forall|i: int| 0 <= i < init.len() implies route_of(
            routes,
            (#[trigger] init[i]).blob,
        ) is None by {
            assert(init[i] == ids[i]);
        }
        lemma_fresh_list(routes, upstream, init);
        let blob = ids.last().blob;
        assert(route_of(routes, ids[ids.len() - 1].blob) is None);
        lemma_merged_list(routes, upstream, init, blob);
        if first_in(init, blob) is Some {
            lemma_first_in_holds(init, blob);
            let i = choose|i: int|
                0 <= i < init.len() && #[trigger] init[i] == first_in(init, blob)->0;
            assert(ids[i].blob != ids[ids.len() - 1].blob);
        }
        assert(routes + new =~= (routes + init.map_values(
            |id: IdentityView| RouteView { identity: id, upstream },
        )).push(RouteView { identity: ids.last(), upstream }));
    }
}

/// The keys of an upstream that none before it lists, and that it lists once,
/// come behind all those before it, in the order in which it lists them.
pub proof fn new_keys_keep_their_order(
    lists: &Vec<Option<Vec<Identity>>>,
    fewer: &Vec<Option<Vec<Identity>>>,
    routes: Routes,
    before: Routes,
)
    requires
        lists@.len() > 0,
        fewer@ == lists@.drop_last(),
        call_ensures(refresh_identities, (lists,), routes),
        call_ensures(refresh_identities, (fewer,), before),
        lists@.last() is Some,
        ({
            let ids = lists@.last()->0@;
            &&& forall|i: int, j: int|
                0 <= i < j < ids.len() ==> (#[trigger] ids[i]).blob@ != (#[trigger] ids[j]).blob@
            &&& forall|i: int, j: int|
                0 <= i < ids.len() && 0 <= j < before.entries@.len() ==> (
                #[trigger] ids[i]).blob@ != (#[trigger] before.entries@[j]).identity.blob@
        }),
    ensures
        routes.entries@.len() == before.entries@.len() + lists@.last()->0@.len(),
        forall|j: int|
            0 <= j < before.entries@.len() ==> (#[trigger] routes.entries@[j])@
                == before.entries@[j]@,
        forall|i: int|
            0 <= i < lists@.last()->0@.len() ==> (#[trigger] lists@.last()->0@[i])@
                == routes.entries@[before.entries@.len() + i].identity@,
{
    let all = lists_view(lists@);
    let ids = lists@.last()->0@;
    let views = ids_view(ids);
    assert(all.drop_last() =~= lists_view(fewer@));
    assert(all.last() == Some(views));
    assert forall|i: int, j: int| 0 <= i < j < views.len() implies (#[trigger] views[i]).blob != (
    #[trigger] views[j]).blob by {
        assert(ids[i].blob@ != ids[j].blob@);
    }
    assert forall|i: int| 0 <= i < views.len() implies route_of(
        before@,
        (#[trigger] views[i]).blob,
    ) is None by {
        let blob = views[i].blob;
        if route_of(before@, blob) is Some {
            lemma_route_of_holds(before@, blob);
            let j = choose|j: int|
                0 <= j < before@.len() && #[trigger] before@[j] == route_of(before@, blob)->0
                    && before@[j].identity.blob == blob;
            assert(before@[j] == before.entries@[j]@);
            assert(ids[i].blob@ != before.entries@[j].identity.blob@);
        }
    }
    lemma_fresh_list(before@, all.len() - 1, views);
    assert(routes@.len() == before@.len() + views.len());
    assert forall|j: int| 0 <= j < before.entries@.len() implies (#[trigger] routes.entries@[j])@
        == before.entries@[j]@ by {
        assert(routes@[j] == before@[j]);
    }
    assert forall|i: int| 0 <= i < ids.len() implies (#[trigger] ids[i])@
        == routes.entries@[before.entries@.len() + i].identity@ by {
        assert(routes@[before@.len() + i].identity == views[i]);
    }
}

/// The route that is found for a key is the first of that key, and where none is
/// found there is none.
pub proof fn route_is_found(routes: &Routes, blob: &[u8], r: Option<&Route>)
    requires
        call_ensures(Routes::find, (routes, blob), r),
    ensures
        r is None ==> forall|i: int|
            0 <= i < routes.entries@.len() ==> (#[trigger] routes.entries@[i]).identity.blob@
                != blob@,
        r is Some ==> exists|i: int|
            0 <= i < routes.entries@.len() && (#[trigger] routes.entries@[i])@ == r->0@
                && r->0.identity.blob@ == blob@ && forall|k: int|
                0 <= k < i ==> (#[trigger] routes.entries@[k]).identity.blob@ != blob@,
{
    if r is None {
        lemma_route_of_none(routes@, blob@);
        assert forall|i: int| 0 <= i < routes.entries@.len() implies (
        #[trigger] routes.entries@[i]).identity.blob@ != blob@ by {
            assert(routes@[i] == routes.entries@[i]@);
        }
    } else {
        lemma_first_route(routes@, blob@);
        let i = choose|i: int|
            0 <= i < routes@.len() && #[trigger] routes@[i] == route_of(routes@, blob@)->0
                && routes@[i].identity.blob == blob@ && forall|k: int|
                0 <= k < i ==> (#[trigger] routes@[k]).identity.blob != blob@;
        assert(routes.entries@[i]@ == r->0@);
        assert forall|k: int| 0 <= k < i implies (#[trigger] routes.entries@[k]).identity.blob@
            != blob@ by {
            assert(routes@[k] == routes.entries@[k]@);
        }
    }
}

proof fn lemma_first_route(routes: Seq<RouteView>, blob: Seq<u8>)
    requires
        route_of(routes, blob) is Some,
    ensures
        exists|i: int|
            0 <= i < routes.len() && #[trigger] routes[i] == route_of(routes, blob)->0
                && routes[i].identity.blob == blob && forall|k: int|
                0 <= k < i ==> (#[trigger] routes[k]).identity.blob != blob,
    decreases routes.len(),
{
    if routes[0].identity.blob != blob {
        let rest = routes.skip(1);
        lemma_first_route(rest, blob);
        let i = choose|i: int|
            0 <= i < rest.len() && #[trigger] rest[i] == route_of(rest, blob)->0
                && rest[i].identity.blob == blob && forall|k: int|
                0 <= k < i ==> (#[trigger] rest[k]).identity.blob != blob;
        assert(routes[i + 1] == route_of(routes, blob)->0);
        assert forall|k: int| 0 <= k < i + 1 implies (#[trigger] routes[k]).identity.blob
            != blob by {
            if k > 0 {
                assert(rest[k - 1] == routes[k]);
            }
        }
    }
}

/// The route that is found for a key after the upstreams were asked is the very
/// first claim to it: in the first list that holds it, the first identity with it.
pub proof fn very_first_claim_is_found(
    lists: &Vec<Option<Vec<Identity>>>,
    routes: Routes,
    blob: &[u8],
    found: Option<&Route>,
    n: int,
    i: int,
)
    requires
        call_ensures(refresh_identities, (lists,), routes),
        call_ensures(Routes::find, (&routes, blob), found),
        0 <= n < lists@.len(),
        lists@[n] is Some,
        0 <= i < lists@[n]->0@.len(),
        lists@[n]->0@[i].blob@ == blob@,
        forall|k: int| 0 <= k < i ==> (#[trigger] lists@[n]->0@[k]).blob@ != blob@,
        forall|m: int, k: int|
            0 <= m < n && lists@[m] is Some && 0 <= k < lists@[m]->0@.len() ==> (
            #[trigger] lists@[m]->0@[k]).blob@ != blob@,
    ensures
        found is Some,
        found->0.upstream == n,
        found->0.identity@ == lists@[n]->0@[i]@,
{
    let all = lists_view(lists@);
    assert(all[n] == Some(ids_view(lists@[n]->0@)));
    lemma_first_in_at(all[n]->0, i, blob@);
    assert forall|m: int| 0 <= m < n implies (#[trigger] all[m] is None || first_in(
        all[m]->0,
        blob@,
    ) is None) by {
        if lists@[m] is Some {
            assert(all[m] == Some(ids_view(lists@[m]->0@)));
            if first_in(all[m]->0, blob@) is Some {
                lemma_first_in_holds(all[m]->0, blob@);
                let k = choose|k: int|
                    0 <= k < all[m]->0.len() && #[trigger] all[m]->0[k] == first_in(
                        all[m]->0,
                        blob@,
                    )->0;
                assert(lists@[m]->0@[k].blob@ != blob@);
            }
        }
    }
    assert(is_first_claim(all, n, blob@));
    first_claim_owns(all, n, blob@);
}

proof fn lemma_first_in_at(ids: Seq<IdentityView>, i: int, blob: Seq<u8>)
    requires
        0 <= i < ids.len(),
        ids[i].blob == blob,
        forall|k: int| 0 <= k < i ==> (#[trigger] ids[k]).blob != blob,
    ensures
        first_in(ids, blob) == Some(ids[i]),
    decreases ids.len(),
{
    if i > 0 {
        let rest = ids.skip(1);
        assert forall|k: int| 0 <= k < i - 1 implies (#[trigger] rest[k]).blob != blob by {
            assert(rest[k] == ids[k + 1]);
        }
        assert(ids[0].blob != blob);
        lemma_first_in_at(rest, i - 1, blob);
    }
}

proof fn lemma_order_kept(
    routes: Seq<RouteView>,
    upstream: int,
    ids: Seq<IdentityView>,
    j: int,
    h: int,
)
    requires
        routes.len() <= j < h < merged_list(routes, upstream, ids).len(),
    ensures
        exists|i: int, k: int|
            0 <= i < k < ids.len() && #[trigger] ids[i] == merged_list(
                routes,
                upstream,
                ids,
            )[j].identity && #[trigger] ids[k] == merged_list(routes, upstream, ids)[h].identity,
    decreases ids.len(),
{
    let init = ids.drop_last();
    let before = merged_list(routes, upstream, init);
    if h < before.len() {
        lemma_order_kept(routes, upstream, init, j, h);
        let (i, k) = choose|i: int, k: int|
            0 <= i < k < init.len() && #[trigger] init[i] == before[j].identity && #[trigger] init[k]
                == before[h].identity;
        assert(ids[i] == before[j].identity && ids[k] == before[h].identity);
    } else {
        lemma_new_routes_are_listed(routes, upstream, init, j);
        let i = choose|i: int| 0 <= i < init.len() && #[trigger] init[i] == before[j].identity;
        assert(ids[i] == before[j].identity);
        assert(ids[ids.len() - 1] == merged_list(routes, upstream, ids)[h].identity);
    }
}

proof fn lemma_order_in_list(lists: Seq<Option<Seq<IdentityView>>>, j: int, h: int)
    requires
        0 <= j < h < merged(lists).len(),
        merged(lists)[j].upstream == merged(lists)[h].upstream,
    ensures
        ({
            let n = merged(lists)[j].upstream;
            &&& 0 <= n < lists.len()
            &&& lists[n] is Some
            &&& exists|i: int, k: int|
                0 <= i < k < lists[n]->0.len() && #[trigger] lists[n]->0[i]
                    == merged(lists)[j].identity && #[trigger] lists[n]->0[k]
                    == merged(lists)[h].identity
        }),
    decreases lists.len(),
{
    let init = lists.drop_last();
    merged_is_distinct(init);
    if lists.last() is None {
        lemma_order_in_list(init, j, h);
        assert(init[merged(init)[j].upstream] == lists[merged(init)[j].upstream]);
    } else {
        let ids = lists.last()->0;
        lemma_merged_list_distinct(merged(init), lists.len() - 1, ids);
        if j < merged(init).len() {
            assert(merged(lists)[j] == merged(init)[j]);
            assert(h < merged(init).len());
            lemma_order_in_list(init, j, h);
            assert(init[merged(init)[j].upstream] == lists[merged(init)[j].upstream]);
        } else {
            lemma_order_kept(merged(init), lists.len() - 1, ids, j, h);
            assert(lists[lists.len() - 1] == Some(ids));
        }
    }
}

/// The keys that one upstream owns come in the order in which it lists them.
pub proof fn listed_order_is_kept(
    lists: &Vec<Option<Vec<Identity>>>,
    routes: Routes,
    j: int,
    h: int,
) -> (at: (int, int))
    requires
        call_ensures(refresh_identities, (lists,), routes),
        0 <= j < h < routes.entries@.len(),
        routes.entries@[j].upstream == routes.entries@[h].upstream,
    ensures
        ({
            let n = routes.entries@[j].upstream as int;
            &&& n < lists@.len()
            &&& lists@[n] is Some
            &&& 0 <= at.0 < at.1 < lists@[n]->0@.len()
            &&& lists@[n]->0@[at.0]@ == routes.entries@[j].identity@
            &&& lists@[n]->0@[at.1]@ == routes.entries@[h].identity@
        }),
{
    let all = lists_view(lists@);
    assert(routes@[j] == routes.entries@[j]@);
    assert(routes@[h] == routes.entries@[h]@);
    lemma_order_in_list(all, j, h);
    let n = routes@[j].upstream;
    assert(all[n] == Some(ids_view(lists@[n]->0@)));
    let (i, k) = choose|i: int, k: int|
        0 <= i < k < all[n]->0.len() && #[trigger] all[n]->0[i] == routes@[j].identity && #[trigger]
            all[n]->0[k] == routes@[h].identity;
    (i, k)
}

/// What stands for an identity and a route is all that they hold.
pub proof fn identity_is_all_there_is(id: Identity, r: Route)
    ensures
        id@.blob == id.blob@,
        id@.comment == id.comment@,
        r@.identity == r.identity@,
        r@.upstream == r.upstream,
{
}

/// An answer of another kind, or one that breaks off before its count, lists
/// nothing; nor does one whose list breaks off.
pub proof fn broken_list_is_no_answer(
    reply: &[u8],
    r: Option<Vec<(Vec<u8>, Vec<u8>)>>,
)
    requires
        call_ensures(parse_identities, (reply,), r),
    ensures
        reply@.len() < 5 || reply@[0] != 12 ==> r is None,
        r is Some ==> r->0@.len() == reply@[1] * 0x100_0000 + reply@[2] * 0x1_0000 + reply@[3]
            * 0x100 + reply@[4],
        r is Some ==> 5 + 8 * r->0@.len() <= reply@.len(),
{
    reveal(crate::wire::be32_value);
    if reply@.len() >= 5 {
        let rest = reply@.skip(1);
        let n = crate::wire::be32_value(rest.take(4));
        lemma_listed_length(n as nat, rest.skip(4));
        if r is Some {
            assert(pairs_view(r->0@).len() == n);
        }
    }
}

proof fn lemma_listed_length(n: nat, s: Seq<u8>)
    ensures
        listed_in(n, s) is Some ==> listed_in(n, s)->0.len() == n && 8 * n <= s.len(),
    decreases n,
{
    if n > 0 {
        if let Some((_, rest)) = take_string(s) {
            if let Some((_, tail)) = take_string(rest) {
                lemma_listed_length((n - 1) as nat, tail);
            }
        }
    }
}

} // verus!
