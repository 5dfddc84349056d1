//! The subscription multiplexer: a registry of active subscriptions
//! sharing one connection, an ordered outbound queue of control
//! envelopes, and the routing of inbound envelopes to the right
//! subscriber's delivery queue.
//!
//! This is the decision core alone: it is a state machine from state
//! and event to next state, and every operation is specified as a pure
//! transition on the mathematical view of the state. The surrounding
//! runtime owns the transport, drains the outbound queue, and feeds
//! inbound frames in.

use vstd::prelude::*;

use crate::codec::{decode, decode_spec};
use crate::envelope::{id_ok, null_lit, Payload, PayloadKind, PayloadView};
use crate::json::json_value_ok;

verus! {

/// Where a subscription stands: still receiving (`Live`), ended
/// cleanly (`Done`: cancelled, shut down, the connection closed, or
/// the server sent `complete`), or ended by a failure (`Failed`: the
/// transport failed, or the server ended it with an `error`
/// envelope).
#[derive(Clone, Copy, Debug, PartialEq, Eq, Structural)]
pub enum SubState {
    Live,
    Done,
    Failed,
}

/// Mathematical model of one registered subscription.
#[verifier::ext_equal]
pub struct SubView {
    pub id: Seq<u8>,
    pub queue: Seq<PayloadView>,
    pub state: SubState,
}

/// One registered subscription: its correlation id, the envelopes
/// routed to it and not yet consumed (arrival order), and where it
/// stands.
#[derive(Debug)]
pub struct Subscription {
    id: Vec<u8>,
    queue: Vec<Payload>,
    state: SubState,
}

impl View for Subscription {
    type V = SubView;

    closed spec fn view(&self) -> SubView {
        SubView { id: self.id@, queue: self.queue@.map_values(|p: Payload| p@), state: self.state }
    }
}

/// Mathematical model of the whole multiplexer.
#[verifier::ext_equal]
pub struct MuxView {
    pub subs: Seq<SubView>,
    pub outbound: Seq<PayloadView>,
    pub init_per_subscription: bool,
    pub init_sent: bool,
    pub capacity: int,
}

/// A single `SubscriptionClient` multiplexes any number of independent
/// subscriptions over one connection: it registers them, emits their
/// control envelopes into the outbound queue, and routes inbound
/// envelopes to them by id.
#[derive(Debug)]
pub struct SubscriptionClient {
    subs: Vec<Subscription>,
    outbound: Vec<Payload>,
    init_per_subscription: bool,
    init_sent: bool,
    capacity: usize,
}

pub open spec fn seq_pv(s: Seq<Payload>) -> Seq<PayloadView> {
    s.map_values(|p: Payload| p@)
}

pub open spec fn seq_sv(s: Seq<Subscription>) -> Seq<SubView> {
    s.map_values(|x: Subscription| x@)
}

impl View for SubscriptionClient {
    type V = MuxView;

    closed spec fn view(&self) -> MuxView {
        MuxView {
            subs: seq_sv(self.subs@),
            outbound: seq_pv(self.outbound@),
            init_per_subscription: self.init_per_subscription,
            init_sent: self.init_sent,
            capacity: self.capacity as int,
        }
    }
}

/// Registry well-formedness: a positive delivery capacity, pairwise
/// distinct ids, and every id usable on the wire.
pub open spec fn wf_mux(v: MuxView) -> bool {
    &&& v.capacity > 0
    &&& forall|i: int, j: int|
        0 <= i < j < v.subs.len() ==> #[trigger] v.subs[i].id != #[trigger] v.subs[j].id
    &&& forall|i: int| 0 <= i < v.subs.len() ==> id_ok(#[trigger] v.subs[i].id)
}

/// Index of the first subscription at or after `k` whose id is `id`,
/// or `-1` where there is none.
pub open spec fn find_from(subs: Seq<SubView>, id: Seq<u8>, k: int) -> int
    decreases subs.len() - k,
{
    if k < 0 || k >= subs.len() {
        -1
    } else if subs[k].id == id {
        k
    } else {
        find_from(subs, id, k + 1)
    }
}

/// Index of the subscription registered under `id`, or `-1`.
pub open spec fn find_sub(subs: Seq<SubView>, id: Seq<u8>) -> int {
    find_from(subs, id, 0)
}

pub proof fn lemma_find_from(subs: Seq<SubView>, id: Seq<u8>, k: int)
    requires
        0 <= k <= subs.len(),
    ensures
        find_from(subs, id, k) == -1 ==> forall|j: int| k <= j < subs.len() ==> subs[j].id != id,
        find_from(subs, id, k) >= 0 ==> k <= find_from(subs, id, k) < subs.len() && subs[find_from(
            subs,
            id,
            k,
        )].id == id && forall|j: int| k <= j < find_from(subs, id, k) ==> subs[j].id != id,
    decreases subs.len() - k,
{
    if k < subs.len() && subs[k].id != id {
        lemma_find_from(subs, id, k + 1);
    }
}

pub open spec fn init_env(id: Seq<u8>) -> PayloadView {
    PayloadView { id: id, kind: PayloadKind::Init, body: None }
}

pub open spec fn subscribe_env(id: Seq<u8>, q: Seq<u8>) -> PayloadView {
    PayloadView { id: id, kind: PayloadKind::Subscribe, body: Some(q) }
}

pub open spec fn stop_env(id: Seq<u8>) -> PayloadView {
    PayloadView { id: id, kind: PayloadKind::Stop, body: None }
}

/// Registering a subscription: a fresh live entry with an empty queue,
/// an `init` control envelope where the protocol variant calls for one
/// (always, or only before anything else was sent), then the
/// `subscribe` envelope carrying the query.
pub open spec fn start_tr(v: MuxView, id: Seq<u8>, q: Seq<u8>) -> MuxView {
    MuxView {
        subs: v.subs.push(SubView { id: id, queue: Seq::empty(), state: SubState::Live }),
        outbound: if v.init_per_subscription || !v.init_sent {
            v.outbound + seq![init_env(id), subscribe_env(id, q)]
        } else {
            v.outbound.push(subscribe_env(id, q))
        },
        init_per_subscription: v.init_per_subscription,
        init_sent: true,
        capacity: v.capacity,
    }
}

/// Where a subscription stands after an envelope of kind `k` was
/// delivered to it: a terminal envelope ends it (`complete` cleanly,
/// `error` as failed); any other kind leaves it receiving.
pub open spec fn state_after_delivery(k: PayloadKind) -> SubState {
    match k {
        PayloadKind::Complete => SubState::Done,
        PayloadKind::Error => SubState::Failed,
        _ => SubState::Live,
    }
}

/// Routing one inbound envelope: where its id names a live subscription
/// whose queue has room, the envelope joins that queue, and a terminal
/// envelope (`complete`, `error`) also ends the subscription; in every
/// other case the state is unchanged (the envelope is dropped).
pub open spec fn route_tr(v: MuxView, p: PayloadView) -> MuxView {
    let i = find_sub(v.subs, p.id);
    if i >= 0 && v.subs[i].state == SubState::Live && v.subs[i].queue.len() < v.capacity {
        MuxView {
            subs: v.subs.update(
                i,
                SubView {
                    id: v.subs[i].id,
                    queue: v.subs[i].queue.push(p),
                    state: state_after_delivery(p.kind),
                },
            ),
            outbound: v.outbound,
            init_per_subscription: v.init_per_subscription,
            init_sent: v.init_sent,
            capacity: v.capacity,
        }
    } else {
        v
    }
}

/// Cancelling a subscription: where `id` names a live subscription, a
/// `stop` control envelope is queued and the subscription ends cleanly;
/// otherwise (unknown id, or already ended) nothing changes, so a
/// second cancellation is a no-op.
pub open spec fn cancel_tr(v: MuxView, id: Seq<u8>) -> MuxView {
    let i = find_sub(v.subs, id);
    if i >= 0 && v.subs[i].state == SubState::Live {
        MuxView {
            subs: v.subs.update(
                i,
                SubView { id: v.subs[i].id, queue: v.subs[i].queue, state: SubState::Done },
            ),
            outbound: v.outbound.push(stop_env(id)),
            init_per_subscription: v.init_per_subscription,
            init_sent: v.init_sent,
            capacity: v.capacity,
        }
    } else {
        v
    }
}

/// A subscription after the connection ends: a live one moves to `st`,
/// keeping its id and its undelivered envelopes; an ended one is left
/// as it is.
pub open spec fn close_one(s: SubView, st: SubState) -> SubView {
    if s.state == SubState::Live {
        SubView { id: s.id, queue: s.queue, state: st }
    } else {
        s
    }
}

pub open spec fn close_subs(subs: Seq<SubView>, st: SubState) -> Seq<SubView> {
    subs.map_values(|s: SubView| close_one(s, st))
}

/// The ids of the still-live subscriptions, in registry order.
pub open spec fn live_ids(subs: Seq<SubView>) -> Seq<Seq<u8>>
    decreases subs.len(),
{
    if subs.len() == 0 {
        Seq::empty()
    } else {
        live_ids(subs.drop_last()) + if subs.last().state == SubState::Live {
            seq![subs.last().id]
        } else {
            Seq::empty()
        }
    }
}

/// The `stop` envelopes shutdown emits: one per still-live id, in
/// registry order.
pub open spec fn stops_of(subs: Seq<SubView>) -> Seq<PayloadView> {
    live_ids(subs).map_values(|id: Seq<u8>| stop_env(id))
}

/// Explicit shutdown: one `stop` envelope per still-live subscription
/// joins the outbound queue, and every live subscription ends cleanly.
pub open spec fn shutdown_tr(v: MuxView) -> MuxView {
    MuxView {
        subs: close_subs(v.subs, SubState::Done),
        outbound: v.outbound + stops_of(v.subs),
        init_per_subscription: v.init_per_subscription,
        init_sent: v.init_sent,
        capacity: v.capacity,
    }
}

/// The connection ended (cleanly or by failure): every live
/// subscription moves to `st`; nothing more can be sent, so the
/// outbound queue is left as it stands.
pub open spec fn conn_end_tr(v: MuxView, st: SubState) -> MuxView {
    MuxView {
        subs: close_subs(v.subs, st),
        outbound: v.outbound,
        init_per_subscription: v.init_per_subscription,
        init_sent: v.init_sent,
        capacity: v.capacity,
    }
}

/// Consuming one delivered envelope from a subscription's queue.
pub open spec fn next_tr(v: MuxView, id: Seq<u8>) -> MuxView {
    let i = find_sub(v.subs, id);
    if i >= 0 && v.subs[i].queue.len() > 0 {
        MuxView {
            subs: v.subs.update(
                i,
                SubView {
                    id: v.subs[i].id,
                    queue: v.subs[i].queue.drop_first(),
                    state: v.subs[i].state,
                },
            ),
            outbound: v.outbound,
            init_per_subscription: v.init_per_subscription,
            init_sent: v.init_sent,
            capacity: v.capacity,
        }
    } else {
        v
    }
}

/// One raw inbound frame: a malformed one is dropped with no effect;
/// a well-formed one is routed.
pub open spec fn frame_tr(v: MuxView, raw: Seq<u8>) -> MuxView {
    match decode_spec(raw) {
        None => v,
        Some(p) => route_tr(v, p),
    }
}

/// What became of one inbound envelope.
#[derive(Clone, Copy, Debug, PartialEq, Eq, Structural)]
pub enum RouteOutcome {
    /// Delivered to the subscription registered under its id.
    Delivered,
    /// A live subscription exists but its queue is full; the envelope
    /// is dropped rather than stall the router (latest-effort policy).
    QueueFull,
    /// No live subscription under that id (late frame after
    /// cancellation, or never registered); dropped silently.
    UnknownId,
}

/// What became of one raw inbound frame.
#[derive(Clone, Copy, Debug, PartialEq, Eq, Structural)]
pub enum FrameOutcome {
    Delivered,
    QueueFull,
    UnknownId,
    /// The frame is not a well-formed envelope; dropped with no effect
    /// on the registry.
    Malformed,
}

fn bytes_eq(a: &Vec<u8>, b: &Vec<u8>) -> (r: bool)
    ensures
        r == (a@ == b@),
{
    if a.len() != b.len() {
        return false;
    }
    let n = a.len();
    let mut i: usize = 0;
    while i < n
        invariant
            n == a@.len() == b@.len(),
            i <= n,
            forall|j: int| 0 <= j < i ==> a@[j] == b@[j],
        decreases n - i,
    {
        if a[i] != b[i] {
            return false;
        }
        i = i + 1;
    }
    proof {
        assert(a@ =~= b@);
    }
    true
}

fn dup_bytes(v: &Vec<u8>) -> (r: Vec<u8>)
    ensures
        r@ == v@,
{
    let r = crate::codec::copy_range(v, 0, v.len());
    proof {
        assert(v@.subrange(0, v@.len() as int) =~= v@);
    }
    r
}

/// Index of the subscription registered under `id` in the concrete
/// registry, mirroring `find_sub` on the view.
fn find_entry(subs: &Vec<Subscription>, id: &Vec<u8>) -> (r: Option<usize>)
    ensures
        match r {
            Some(i) => find_sub(seq_sv(subs@), id@) == i && i < subs@.len(),
            None => find_sub(seq_sv(subs@), id@) == -1,
        },
{
    let n = subs.len();
    let mut i: usize = 0;
    while i < n
        invariant
            n == subs@.len(),
            i <= n,
            find_from(seq_sv(subs@), id@, 0) == find_from(seq_sv(subs@), id@, i as int),
        decreases n - i,
    {
        if bytes_eq(&subs[i].id, id) {
            proof {
                assert(seq_sv(subs@)[i as int].id == id@);
            }
            return Some(i);
        }
        proof {
            assert(seq_sv(subs@)[i as int].id != id@);
        }
        i = i + 1;
    }
    None
}

impl SubscriptionClient {
    /// A fresh multiplexer over a newly established connection: no
    /// subscriptions, nothing outbound yet. `init_per_subscription`
    /// picks the protocol variant: an `init` envelope before every
    /// subscription, or one only for the first. `capacity` bounds each
    /// subscription's delivery queue (beyond it, delivery is
    /// latest-effort and drops).
    pub fn new(init_per_subscription: bool, capacity: usize) -> (r: SubscriptionClient)
        requires
            capacity > 0,
        ensures
            r@ == (MuxView {
                subs: Seq::empty(),
                outbound: Seq::empty(),
                init_per_subscription: init_per_subscription,
                init_sent: false,
                capacity: capacity as int,
            }),
            wf_mux(r@),
    {
        let r = SubscriptionClient {
            subs: Vec::new(),
            outbound: Vec::new(),
            init_per_subscription,
            init_sent: false,
            capacity,
        };
        proof {
            assert(seq_sv(r.subs@) =~= Seq::<SubView>::empty());
            assert(seq_pv(r.outbound@) =~= Seq::<PayloadView>::empty());
        }
        r
    }

    /// Register a subscription under a caller-chosen fresh id and queue
    /// its control envelopes. The query travels as the opaque body of
    /// the `subscribe` envelope.
    pub fn start_with_id(&mut self, id: Vec<u8>, query_body: Vec<u8>)
        requires
            wf_mux(old(self)@),
            id_ok(id@),
            find_sub(old(self)@.subs, id@) == -1,
            json_value_ok(query_body@),
            query_body@ != null_lit(),
        ensures
            final(self)@ == start_tr(old(self)@, id@, query_body@),
            wf_mux(final(self)@),
    {
        proof {
            lemma_find_from(old(self)@.subs, id@, 0);
        }
        let ghost pre = self@;
        let id2 = dup_bytes(&id);
        let send_init = self.init_per_subscription || !self.init_sent;
        if send_init {
            self.outbound.push(Payload::init(dup_bytes(&id)));
        }
        self.outbound.push(Payload::subscribe(id2, query_body));
        self.init_sent = true;
        self.subs.push(Subscription { id: id, queue: Vec::new(), state: SubState::Live });
        proof {
            let post = start_tr(pre, id@, query_body@);
            assert(seq_sv(self.subs@) =~~= post.subs);
            assert(seq_pv(self.outbound@) =~~= post.outbound);
            assert(self@ =~~= post);
        }
    }

    /// Start a subscription under a freshly drawn random id. In the
    /// vanishingly rare case that the drawn id is already registered,
    /// nothing changes and no id is returned; otherwise the new
    /// subscription's id comes back as the handle.
    pub fn start(&mut self, query_body: Vec<u8>) -> (r: Option<Vec<u8>>)
        requires
            wf_mux(old(self)@),
            json_value_ok(query_body@),
            query_body@ != null_lit(),
        ensures
            wf_mux(final(self)@),
            old(self)@.subs.len() == 0 ==> r is Some,
            match r {
                Some(id) => id_ok(id@) && find_sub(old(self)@.subs, id@) == -1 && final(self)@
                    == start_tr(old(self)@, id@, query_body@),
                None => final(self)@ == old(self)@,
            },
    {
        let id = crate::ids::fresh_id();
        match find_entry(&self.subs, &id) {
            Some(_) => None,
            None => {
                let handle = dup_bytes(&id);
                self.start_with_id(id, query_body);
                Some(handle)
            },
        }
    }

    /// Route one inbound envelope to the subscription registered under
    /// its id. Exactly the matched live subscription's queue can grow
    /// (and a terminal envelope ends it); every other subscription,
    /// and the outbound queue, are untouched whatever the envelope
    /// holds.
    pub fn route(&mut self, p: Payload) -> (r: RouteOutcome)
        requires
            wf_mux(old(self)@),
        ensures
            final(self)@ == route_tr(old(self)@, p@),
            wf_mux(final(self)@),
            ({
                let i = find_sub(old(self)@.subs, p@.id);
                match r {
                    RouteOutcome::Delivered => i >= 0 && old(self)@.subs[i].state == SubState::Live
                        && old(self)@.subs[i].queue.len() < old(self)@.capacity,
                    RouteOutcome::QueueFull => i >= 0 && old(self)@.subs[i].state == SubState::Live
                        && old(self)@.subs[i].queue.len() >= old(self)@.capacity,
                    RouteOutcome::UnknownId => i == -1 || old(self)@.subs[i].state
                        != SubState::Live,
                }
            }),
    {
        let ghost pre = self@;
        match find_entry(&self.subs, &p.id) {
            None => RouteOutcome::UnknownId,
            Some(i) => {
                if self.subs[i].state != SubState::Live {
                    return RouteOutcome::UnknownId;
                }
                if self.subs[i].queue.len() >= self.capacity {
                    return RouteOutcome::QueueFull;
                }
                let st = match p.kind {
                    PayloadKind::Complete => SubState::Done,
                    PayloadKind::Error => SubState::Failed,
                    _ => SubState::Live,
                };
                deliver_at(&mut self.subs, i, p, st);
                proof {
                    let post = route_tr(pre, p@);
                    assert(self@.subs =~~= post.subs);
                    assert(self@ =~~= post);
                }
                RouteOutcome::Delivered
            },
        }
    }

    /// Route one raw inbound frame: decode it and deliver the envelope,
    /// or drop the frame as malformed with no effect on any
    /// subscription. A malformed frame never fails the router.
    pub fn handle_frame(&mut self, raw: &Vec<u8>) -> (r: FrameOutcome)
        requires
            wf_mux(old(self)@),
        ensures
            final(self)@ == frame_tr(old(self)@, raw@),
            wf_mux(final(self)@),
            ({
                match decode_spec(raw@) {
                    None => r == FrameOutcome::Malformed && final(self)@ == old(self)@,
                    Some(p) => {
                        let i = find_sub(old(self)@.subs, p.id);
                        match r {
                            FrameOutcome::Delivered => i >= 0 && old(self)@.subs[i].state
                                == SubState::Live && old(self)@.subs[i].queue.len() < old(
                                self,
                            )@.capacity,
                            FrameOutcome::QueueFull => i >= 0 && old(self)@.subs[i].state
                                == SubState::Live && old(self)@.subs[i].queue.len() >= old(
                                self,
                            )@.capacity,
                            FrameOutcome::UnknownId => i == -1 || old(self)@.subs[i].state
                                != SubState::Live,
                            FrameOutcome::Malformed => false,
                        }
                    },
                }
            }),
    {
        match decode(raw) {
            Err(_) => FrameOutcome::Malformed,
            Ok(p) => match self.route(p) {
                RouteOutcome::Delivered => FrameOutcome::Delivered,
                RouteOutcome::QueueFull => FrameOutcome::QueueFull,
                RouteOutcome::UnknownId => FrameOutcome::UnknownId,
            },
        }
    }

    /// Cancel the subscription registered under `id`: queue its `stop`
    /// envelope and end its delivery. Safe to call any number of
    /// times; only the first call on a live subscription has an
    /// effect. Returns whether this call was the one that cancelled.
    pub fn cancel(&mut self, id: &Vec<u8>) -> (r: bool)
        requires
            wf_mux(old(self)@),
        ensures
            final(self)@ == cancel_tr(old(self)@, id@),
            wf_mux(final(self)@),
            r == {
                let i = find_sub(old(self)@.subs, id@);
                i >= 0 && old(self)@.subs[i].state == SubState::Live
            },
    {
        let ghost pre = self@;
        match find_entry(&self.subs, id) {
            None => false,
            Some(i) => {
                if self.subs[i].state != SubState::Live {
                    return false;
                }
                self.outbound.push(Payload::stop(dup_bytes(id)));
                set_state_at(&mut self.subs, i, SubState::Done);
                proof {
                    let post = cancel_tr(pre, id@);
                    assert(self@.subs =~~= post.subs);
                    assert(self@.outbound =~~= post.outbound);
                    assert(self@ =~~= post);
                }
                true
            },
        }
    }

    /// Shut the multiplexer down: queue one `stop` envelope for every
    /// still-live subscription (in registry order) and end them all
    /// cleanly. Already-ended subscriptions are untouched.
    pub fn shutdown(&mut self)
        requires
            wf_mux(old(self)@),
        ensures
            final(self)@ == shutdown_tr(old(self)@),
            wf_mux(final(self)@),
    {
        let ghost pre = self@;
        let n = self.subs.len();
        let mut i: usize = 0;
        while i < n
            invariant
                n == pre.subs.len(),
                i <= n,
                self@.subs.len() == n,
                forall|j: int|
                    0 <= j < i ==> self@.subs[j] == close_one(pre.subs[j], SubState::Done),
                forall|j: int| i <= j < n ==> self@.subs[j] == pre.subs[j],
                self@.outbound == pre.outbound + stops_of(pre.subs.subrange(0, i as int)),
                self@.init_per_subscription == pre.init_per_subscription,
                self@.init_sent == pre.init_sent,
                self@.capacity == pre.capacity,
            decreases n - i,
        {
            let ghost prefix = pre.subs.subrange(0, i as int);
            if self.subs[i].state == SubState::Live {
                let idc = dup_bytes(&self.subs[i].id);
                self.outbound.push(Payload::stop(idc));
                set_state_at(&mut self.subs, i, SubState::Done);
                proof {
                    lemma_live_ids_snoc(pre.subs, i as int);
                    assert(seq_pv(self.outbound@) =~~= pre.outbound + stops_of(prefix) + seq![
                        stop_env(pre.subs[i as int].id),
                    ]);
                    assert(stops_of(pre.subs.subrange(0, i as int + 1)) =~~= stops_of(prefix)
                        + seq![stop_env(pre.subs[i as int].id)]);
                    assert(self@.outbound =~~= pre.outbound + stops_of(
                        pre.subs.subrange(0, i as int + 1),
                    ));
                }
            } else {
                proof {
                    lemma_live_ids_snoc(pre.subs, i as int);
                    assert(stops_of(pre.subs.subrange(0, i as int + 1)) =~~= stops_of(prefix));
                    assert(self@.outbound =~~= pre.outbound + stops_of(
                        pre.subs.subrange(0, i as int + 1),
                    ));
                }
            }
            i = i + 1;
        }
        proof {
            assert(pre.subs.subrange(0, n as int) =~= pre.subs);
            assert(self@.subs =~~= close_subs(pre.subs, SubState::Done));
            assert(self@ =~~= shutdown_tr(pre));
        }
    }

    /// The inbound side of the connection ended cleanly: every live
    /// subscription completes. Nothing more travels, so no `stop`
    /// envelopes are queued.
    pub fn connection_closed(&mut self)
        requires
            wf_mux(old(self)@),
        ensures
            final(self)@ == conn_end_tr(old(self)@, SubState::Done),
            wf_mux(final(self)@),
    {
        close_all(&mut self.subs, SubState::Done);
        proof {
            assert(self@ =~~= conn_end_tr(old(self)@, SubState::Done));
        }
    }

    /// The connection failed mid-stream: every live subscription ends
    /// as failed, surfaced once to each consumer.
    pub fn connection_failed(&mut self)
        requires
            wf_mux(old(self)@),
        ensures
            final(self)@ == conn_end_tr(old(self)@, SubState::Failed),
            wf_mux(final(self)@),
    {
        close_all(&mut self.subs, SubState::Failed);
        proof {
            assert(self@ =~~= conn_end_tr(old(self)@, SubState::Failed));
        }
    }

    /// Consume the next envelope delivered to the subscription under
    /// `id`: the oldest undelivered one, if any; otherwise a report of
    /// where the subscription stands, on which the consumer either
    /// waits (`Pending`) or stops (`Ended`, `Failed`).
    pub fn next(&mut self, id: &Vec<u8>) -> (r: NextResult)
        requires
            wf_mux(old(self)@),
        ensures
            final(self)@ == next_tr(old(self)@, id@),
            wf_mux(final(self)@),
            ({
                let i = find_sub(old(self)@.subs, id@);
                if i == -1 {
                    r == NextResult::Ended
                } else if old(self)@.subs[i].queue.len() > 0 {
                    r matches NextResult::Item(p) && p@ == old(self)@.subs[i].queue[0]
                } else if old(self)@.subs[i].state == SubState::Live {
                    r == NextResult::Pending
                } else if old(self)@.subs[i].state == SubState::Done {
                    r == NextResult::Ended
                } else {
                    r == NextResult::Failed
                }
            }),
    {
        let ghost pre = self@;
        match find_entry(&self.subs, id) {
            None => NextResult::Ended,
            Some(i) => {
                if self.subs[i].queue.len() > 0 {
                    let p = pop_front_at(&mut self.subs, i);
                    proof {
                        let post = next_tr(pre, id@);
                        assert(self@.subs =~~= post.subs);
                        assert(self@ =~~= post);
                    }
                    NextResult::Item(p)
                } else if self.subs[i].state == SubState::Live {
                    NextResult::Pending
                } else if self.subs[i].state == SubState::Done {
                    NextResult::Ended
                } else {
                    NextResult::Failed
                }
            },
        }
    }

    /// Hand over everything queued outbound, in the order it was
    /// issued, leaving the queue empty. The transport side drains this.
    pub fn take_outbound(&mut self) -> (r: Vec<Payload>)
        ensures
            seq_pv(r@) == old(self)@.outbound,
            final(self)@ == (MuxView {
                subs: old(self)@.subs,
                outbound: Seq::empty(),
                init_per_subscription: old(self)@.init_per_subscription,
                init_sent: old(self)@.init_sent,
                capacity: old(self)@.capacity,
            }),
            wf_mux(old(self)@) ==> wf_mux(final(self)@),
    {
        let r = self.outbound.split_off(0);
        proof {
            assert(r@ =~= old(self).outbound@);
            assert(seq_pv(self.outbound@) =~= Seq::<PayloadView>::empty());
            assert(self@ =~~= (MuxView {
                subs: old(self)@.subs,
                outbound: Seq::empty(),
                init_per_subscription: old(self)@.init_per_subscription,
                init_sent: old(self)@.init_sent,
                capacity: old(self)@.capacity,
            }));
        }
        r
    }
}

/// What the consumer of a subscription handle sees on one poll.
#[derive(Debug)]
pub enum NextResult {
    /// The oldest envelope routed to this subscription and not yet
    /// consumed.
    Item(Payload),
    /// Nothing delivered yet, but the subscription is live: wait.
    Pending,
    /// The subscription ended cleanly (cancelled, shut down, the
    /// server sent `complete`, or the connection closed) and
    /// everything delivered has been consumed.
    Ended,
    /// The subscription ended by failure: the transport failed, or
    /// the server ended it with an `error` envelope.
    Failed,
}

/// Move the subscription at `i` to `st`, keeping everything else.
fn set_state_at(subs: &mut Vec<Subscription>, i: usize, st: SubState)
    requires
        i < old(subs)@.len(),
    ensures
        seq_sv(final(subs)@) == seq_sv(old(subs)@).update(
            i as int,
            SubView {
                id: seq_sv(old(subs)@)[i as int].id,
                queue: seq_sv(old(subs)@)[i as int].queue,
                state: st,
            },
        ),
{
    let mut e = subs.remove(i);
    e.state = st;
    subs.insert(i, e);
    proof {
        assert(seq_sv(subs@) =~~= seq_sv(old(subs)@).update(
            i as int,
            SubView {
                id: seq_sv(old(subs)@)[i as int].id,
                queue: seq_sv(old(subs)@)[i as int].queue,
                state: st,
            },
        ));
    }
}

/// Take the oldest queued envelope of the subscription at `i`.
fn pop_front_at(subs: &mut Vec<Subscription>, i: usize) -> (r: Payload)
    requires
        i < old(subs)@.len(),
        seq_sv(old(subs)@)[i as int].queue.len() > 0,
    ensures
        r@ == seq_sv(old(subs)@)[i as int].queue[0],
        seq_sv(final(subs)@) == seq_sv(old(subs)@).update(
            i as int,
            SubView {
                id: seq_sv(old(subs)@)[i as int].id,
                queue: seq_sv(old(subs)@)[i as int].queue.drop_first(),
                state: seq_sv(old(subs)@)[i as int].state,
            },
        ),
{
    let mut e = subs.remove(i);
    let p = e.queue.remove(0);
    subs.insert(i, e);
    proof {
        assert(seq_sv(subs@) =~~= seq_sv(old(subs)@).update(
            i as int,
            SubView {
                id: seq_sv(old(subs)@)[i as int].id,
                queue: seq_sv(old(subs)@)[i as int].queue.drop_first(),
                state: seq_sv(old(subs)@)[i as int].state,
            },
        ));
    }
    p
}

/// End every live subscription, moving it to `st`.
fn close_all(subs: &mut Vec<Subscription>, st: SubState)
    ensures
        seq_sv(final(subs)@) == close_subs(seq_sv(old(subs)@), st),
{
    let n = subs.len();
    let mut i: usize = 0;
    while i < n
        invariant
            n == old(subs)@.len(),
            i <= n,
            subs@.len() == n,
            forall|j: int|
                0 <= j < i ==> seq_sv(subs@)[j] == close_one(seq_sv(old(subs)@)[j], st),
            forall|j: int| i <= j < n ==> seq_sv(subs@)[j] == seq_sv(old(subs)@)[j],
        decreases n - i,
    {
        if subs[i].state == SubState::Live {
            set_state_at(subs, i, st);
        }
        proof {
            assert(subs@.len() == seq_sv(subs@).len());
        }
        i = i + 1;
    }
    proof {
        assert(seq_sv(subs@) =~~= close_subs(seq_sv(old(subs)@), st));
    }
}

/// Appending one subscription extends the live ids by its id exactly
/// where it is live.
proof fn lemma_live_ids_snoc(subs: Seq<SubView>, i: int)
    requires
        0 <= i < subs.len(),
    ensures
        live_ids(subs.subrange(0, i + 1)) == live_ids(subs.subrange(0, i)) + if subs[i].state
            == SubState::Live {
            seq![subs[i].id]
        } else {
            Seq::<Seq<u8>>::empty()
        },
{
    let a = subs.subrange(0, i + 1);
    assert(a.drop_last() =~= subs.subrange(0, i));
    assert(a.last() == subs[i]);
}

/// Searching depends only on the ids: two registries with the same ids
/// in the same order are searched alike.
proof fn lemma_find_from_same_ids(s1: Seq<SubView>, s2: Seq<SubView>, id: Seq<u8>, k: int)
    requires
        s1.len() == s2.len(),
        forall|j: int| 0 <= j < s1.len() ==> #[trigger] s1[j].id == s2[j].id,
    ensures
        find_from(s1, id, k) == find_from(s2, id, k),
    decreases s1.len() - k,
{
    if 0 <= k < s1.len() && s1[k].id != id {
        lemma_find_from_same_ids(s1, s2, id, k + 1);
    }
}

/// Isolation of routing: an envelope addressed to one id never touches
/// a subscription registered under another id — its queue, its state
/// and its id stand as they were, whatever else the envelope holds.
pub proof fn lemma_route_isolation(v: MuxView, p: PayloadView, j: int)
    requires
        wf_mux(v),
        0 <= j < v.subs.len(),
        v.subs[j].id != p.id,
    ensures
        route_tr(v, p).subs.len() == v.subs.len(),
        route_tr(v, p).subs[j] == v.subs[j],
    decreases 0int,
{
    let i = find_sub(v.subs, p.id);
    lemma_find_from(v.subs, p.id, 0);
    if i >= 0 {
        assert(v.subs[i].id == p.id);
        assert(i != j);
    }
}

/// Isolation of cancellation: cancelling one id leaves every
/// subscription registered under another id exactly as it was.
pub proof fn lemma_cancel_isolation(v: MuxView, a: Seq<u8>, j: int)
    requires
        wf_mux(v),
        0 <= j < v.subs.len(),
        v.subs[j].id != a,
    ensures
        cancel_tr(v, a).subs.len() == v.subs.len(),
        cancel_tr(v, a).subs[j] == v.subs[j],
{
    let i = find_sub(v.subs, a);
    lemma_find_from(v.subs, a, 0);
    if i >= 0 {
        assert(v.subs[i].id == a);
        assert(i != j);
    }
}

/// After cancelling one subscription, another live one still receives
/// its envelopes exactly as before.
pub proof fn lemma_cancel_then_route(v: MuxView, a: Seq<u8>, p: PayloadView)
    requires
        wf_mux(v),
        p.id != a,
        find_sub(v.subs, p.id) >= 0,
        v.subs[find_sub(v.subs, p.id)].state == SubState::Live,
        v.subs[find_sub(v.subs, p.id)].queue.len() < v.capacity,
    ensures
        route_tr(cancel_tr(v, a), p).subs[find_sub(v.subs, p.id)].queue == v.subs[find_sub(
            v.subs,
            p.id,
        )].queue.push(p),
{
    let i = find_sub(v.subs, p.id);
    let w = cancel_tr(v, a);
    lemma_find_from(v.subs, p.id, 0);
    let ic = find_sub(v.subs, a);
    lemma_find_from(v.subs, a, 0);
    assert forall|j: int| 0 <= j < v.subs.len() implies #[trigger] w.subs[j].id
        == v.subs[j].id by {
        if ic >= 0 && v.subs[ic].state == SubState::Live && j != ic {
            assert(w.subs[j] == v.subs[j]);
        }
    }
    lemma_find_from_same_ids(w.subs, v.subs, p.id, 0);
    lemma_cancel_isolation(v, a, i);
}

/// Every id the live-id list holds names a live subscription.
proof fn lemma_live_ids_sound(subs: Seq<SubView>)
    ensures
        forall|k: int|
            #![trigger live_ids(subs)[k]]
            0 <= k < live_ids(subs).len() ==> exists|j: int|
                0 <= j < subs.len() && #[trigger] subs[j].state == SubState::Live && live_ids(
                    subs,
                )[k] == subs[j].id,
    decreases subs.len(),
{
    if subs.len() > 0 {
        let dl = subs.drop_last();
        lemma_live_ids_sound(dl);
        assert forall|k: int| #![trigger live_ids(subs)[k]] 0 <= k < live_ids(subs).len() implies exists|j: int|
            0 <= j < subs.len() && #[trigger] subs[j].state == SubState::Live && live_ids(subs)[k]
                == subs[j].id by {
            if k < live_ids(dl).len() {
                let j = choose|j: int|
                    0 <= j < dl.len() && #[trigger] dl[j].state == SubState::Live && live_ids(
                        dl,
                    )[k] == dl[j].id;
                assert(subs[j].state == SubState::Live && live_ids(subs)[k] == subs[j].id);
            } else {
                let j = subs.len() - 1;
                assert(subs[j].state == SubState::Live && live_ids(subs)[k] == subs[j].id);
            }
        }
    }
}

/// Every live subscription's id is in the live-id list.
proof fn lemma_live_ids_complete(subs: Seq<SubView>)
    ensures
        forall|j: int|
            0 <= j < subs.len() && #[trigger] subs[j].state == SubState::Live ==> live_ids(
                subs,
            ).contains(subs[j].id),
    decreases subs.len(),
{
    if subs.len() > 0 {
        let dl = subs.drop_last();
        lemma_live_ids_complete(dl);
        assert forall|j: int|
            0 <= j < subs.len() && #[trigger] subs[j].state == SubState::Live implies live_ids(
            subs,
        ).contains(subs[j].id) by {
            if j < subs.len() - 1 {
                assert(dl[j].state == SubState::Live);
                let k = choose|k: int| 0 <= k < live_ids(dl).len() && live_ids(dl)[k] == dl[j].id;
                assert(live_ids(subs)[k] == subs[j].id);
            } else {
                assert(live_ids(subs).last() == subs[j].id);
            }
        }
    }
}

/// With pairwise distinct registry ids, the live-id list repeats none.
proof fn lemma_live_ids_distinct(subs: Seq<SubView>)
    requires
        forall|i: int, j: int|
            0 <= i < j < subs.len() ==> #[trigger] subs[i].id != #[trigger] subs[j].id,
    ensures
        forall|k1: int, k2: int|
            0 <= k1 < k2 < live_ids(subs).len() ==> live_ids(subs)[k1] != live_ids(subs)[k2],
    decreases subs.len(),
{
    if subs.len() > 0 {
        let dl = subs.drop_last();
        lemma_live_ids_distinct(dl);
        lemma_live_ids_sound(dl);
        assert forall|k1: int, k2: int|
            0 <= k1 < k2 < live_ids(subs).len() implies live_ids(subs)[k1] != live_ids(
            subs,
        )[k2] by {
            if k2 < live_ids(dl).len() {
                assert(live_ids(subs)[k1] == live_ids(dl)[k1]);
                assert(live_ids(subs)[k2] == live_ids(dl)[k2]);
            } else {
                let j = choose|j: int|
                    0 <= j < dl.len() && #[trigger] dl[j].state == SubState::Live && live_ids(
                        dl,
                    )[k1] == dl[j].id;
                assert(live_ids(subs)[k2] == subs[subs.len() - 1].id);
                assert(live_ids(subs)[k1] == subs[j].id);
            }
        }
    }
}

/// The live-id list has one entry per live subscription.
proof fn lemma_live_ids_count(subs: Seq<SubView>)
    ensures
        live_ids(subs).len() == subs.filter(|s: SubView| s.state == SubState::Live).len(),
    decreases subs.len(),
{
    reveal_with_fuel(Seq::filter, 2);
    if subs.len() > 0 {
        lemma_live_ids_count(subs.drop_last());
    }
}

/// Shutting down with N live subscriptions emits exactly N `stop`
/// envelopes — one per live id, no repeats, none for an already-ended
/// subscription — and moves every live subscription to a clean end,
/// its undelivered queue intact. Nothing else changes.
pub proof fn lemma_shutdown_stops(v: MuxView)
    requires
        wf_mux(v),
    ensures
        shutdown_tr(v).outbound == v.outbound + stops_of(v.subs),
        stops_of(v.subs).len() == v.subs.filter(|s: SubView| s.state == SubState::Live).len(),
        forall|j: int|
            0 <= j < v.subs.len() && #[trigger] v.subs[j].state == SubState::Live ==> stops_of(
                v.subs,
            ).contains(stop_env(v.subs[j].id)),
        forall|k: int|
            #![trigger stops_of(v.subs)[k]]
            0 <= k < stops_of(v.subs).len() ==> exists|j: int|
                0 <= j < v.subs.len() && #[trigger] v.subs[j].state == SubState::Live && stops_of(
                    v.subs,
                )[k] == stop_env(v.subs[j].id),
        forall|k1: int, k2: int|
            0 <= k1 < k2 < stops_of(v.subs).len() ==> stops_of(v.subs)[k1] != stops_of(v.subs)[k2],
        shutdown_tr(v).subs.len() == v.subs.len(),
        forall|j: int|
            0 <= j < v.subs.len() ==> #[trigger] shutdown_tr(v).subs[j] == close_one(
                v.subs[j],
                SubState::Done,
            ),
        forall|j: int| 0 <= j < v.subs.len() ==> shutdown_tr(v).subs[j].state != SubState::Live,
{
    lemma_live_ids_sound(v.subs);
    lemma_live_ids_complete(v.subs);
    lemma_live_ids_distinct(v.subs);
    lemma_live_ids_count(v.subs);
    assert forall|k: int|
        #![trigger stops_of(v.subs)[k]]
        0 <= k < stops_of(v.subs).len() implies exists|j: int|
        0 <= j < v.subs.len() && #[trigger] v.subs[j].state == SubState::Live && stops_of(
            v.subs,
        )[k] == stop_env(v.subs[j].id) by {
        let j = choose|j: int|
            0 <= j < v.subs.len() && #[trigger] v.subs[j].state == SubState::Live && live_ids(
                v.subs,
            )[k] == v.subs[j].id;
        assert(stops_of(v.subs)[k] == stop_env(v.subs[j].id));
    }
    assert forall|j: int|
        0 <= j < v.subs.len() && #[trigger] v.subs[j].state == SubState::Live implies stops_of(
        v.subs,
    ).contains(stop_env(v.subs[j].id)) by {
        let k = choose|k: int|
            0 <= k < live_ids(v.subs).len() && live_ids(v.subs)[k] == v.subs[j].id;
        assert(stops_of(v.subs)[k] == stop_env(v.subs[j].id));
    }
    assert forall|k1: int, k2: int|
        0 <= k1 < k2 < stops_of(v.subs).len() implies stops_of(v.subs)[k1] != stops_of(
        v.subs,
    )[k2] by {
        assert(live_ids(v.subs)[k1] != live_ids(v.subs)[k2]);
        assert(stops_of(v.subs)[k1].id == live_ids(v.subs)[k1]);
        assert(stops_of(v.subs)[k2].id == live_ids(v.subs)[k2]);
    }
}

/// After the registry is closed (shutdown or connection end), routing
/// delivers nothing: every inbound envelope leaves the state as it is.
pub proof fn lemma_closed_no_delivery(v: MuxView, st: SubState, p: PayloadView)
    requires
        st != SubState::Live,
    ensures
        route_tr(conn_end_tr(v, st), p) == conn_end_tr(v, st),
        route_tr(shutdown_tr(v), p) == shutdown_tr(v),
{
    let w = conn_end_tr(v, st);
    let i = find_sub(w.subs, p.id);
    lemma_find_from(w.subs, p.id, 0);
    if i >= 0 {
        assert(w.subs[i] == close_one(v.subs[i], st));
        assert(w.subs[i].state != SubState::Live);
    }
    let u = shutdown_tr(v);
    let i2 = find_sub(u.subs, p.id);
    lemma_find_from(u.subs, p.id, 0);
    if i2 >= 0 {
        assert(u.subs[i2] == close_one(v.subs[i2], SubState::Done));
        assert(u.subs[i2].state != SubState::Live);
    }
}

/// An envelope addressed to an unknown id is dropped without any
/// effect, and in particular without affecting how any later envelope
/// is routed.
pub proof fn lemma_unknown_id_dropped(v: MuxView, p: PayloadView, p2: PayloadView)
    requires
        find_sub(v.subs, p.id) == -1,
    ensures
        route_tr(v, p) == v,
        route_tr(route_tr(v, p), p2) == route_tr(v, p2),
{
}

/// A malformed inbound frame leaves the state untouched, and in
/// particular does not block the routing of the next frame.
pub proof fn lemma_malformed_frame_harmless(v: MuxView, raw: Seq<u8>, raw2: Seq<u8>)
    requires
        decode_spec(raw) == None::<PayloadView>,
    ensures
        frame_tr(v, raw) == v,
        frame_tr(frame_tr(v, raw), raw2) == frame_tr(v, raw2),
{
}

/// Append `p` to the delivery queue of the subscription at `i` and
/// move it to `st`.
fn deliver_at(subs: &mut Vec<Subscription>, i: usize, p: Payload, st: SubState)
    requires
        i < old(subs)@.len(),
    ensures
        seq_sv(final(subs)@) == seq_sv(old(subs)@).update(
            i as int,
            SubView {
                id: seq_sv(old(subs)@)[i as int].id,
                queue: seq_sv(old(subs)@)[i as int].queue.push(p@),
                state: st,
            },
        ),
{
    let ghost pv = p@;
    let mut e = subs.remove(i);
    e.queue.push(p);
    e.state = st;
    proof {
        assert(e@.queue =~= seq_sv(old(subs)@)[i as int].queue.push(pv));
    }
    subs.insert(i, e);
    proof {
        assert(seq_sv(subs@) =~~= seq_sv(old(subs)@).update(
            i as int,
            SubView {
                id: seq_sv(old(subs)@)[i as int].id,
                queue: seq_sv(old(subs)@)[i as int].queue.push(pv),
                state: st,
            },
        ));
    }
}

} // verus!
