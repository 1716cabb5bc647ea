//! Per-connection session handling: the state machine that performs the
//! handshake, is admitted through the session lock, hands the session to the
//! interaction worker, relays requests, and always leaves the surface with
//! exactly one terminal stop.

use vstd::prelude::*;

use crate::choices::ClientRequest;
use crate::types::{
    spec_default_mask, spec_event_to_server_event, Event, Matcher, Registration, ServerEvent,
    SubscriptionMask,
};
use crate::PROTOCOL_VERSION;

verus! {

/// Where one connection stands in its handling.
#[derive(Clone, Copy, Debug)]
pub enum ConnPhase {
    /// Awaiting the registration line.
    Handshake,
    /// Registration accepted; awaiting the admission decision.
    Admitting,
    /// `Busy` was sent; waiting for the session lock to free up.
    WaitingLock,
    /// Holds the session lock; waiting for the surface's dispatch handle.
    AwaitingHandoff,
    /// `Registered` was sent; the session is live and requests are relayed.
    Active,
    /// Handling is over; `stopped` records whether a terminal stop was
    /// dispatched to the interaction surface.
    Done { stopped: bool },
}

/// One observed happening on a connection, fed to the state machine.
#[derive(Debug)]
pub enum ConnEvent {
    /// The first line decoded as a registration.
    Register(Registration),
    /// The first line was missing or undecodable: fatal.
    RegistrationInvalid,
    /// The session lock was acquired.
    LockGranted,
    /// The session lock is held elsewhere; the connection must wait.
    LockBusy,
    /// The interaction worker delivered the dispatch handle.
    HandoffReady,
    /// The interaction worker could not start the surface.
    HandoffFailed,
    /// A further line decoded as a client request.
    Request(ClientRequest),
    /// A further line failed to decode: logged, not fatal.
    BadLine,
    /// The peer went away (end of stream or read error).
    Disconnected,
}

/// What the connection's surroundings are asked to do in response.
#[derive(Debug)]
pub enum ConnAction {
    /// Write one message to this connection's peer.
    Send(ServerEvent),
    /// Hand the session to the interaction worker with this matcher.
    RequestHandoff(Matcher),
    /// Push one request into the surface's command queue.
    Dispatch(ClientRequest),
    /// Release the session lock for the next waiter.
    ReleaseLock,
    /// Close the connection.
    Close,
}

/// The state one connection carries between events.
#[derive(Clone, Copy, Debug)]
pub struct Connection {
    pub id: usize,
    pub phase: ConnPhase,
    pub subscribe_to: SubscriptionMask,
    pub matcher: Matcher,
}

/// Whether the phase holds the session lock: from the grant that admits the
/// session until its terminal release.
pub open spec fn holds_lock(phase: ConnPhase) -> bool {
    match phase {
        ConnPhase::AwaitingHandoff => true,
        ConnPhase::Active => true,
        _ => false,
    }
}

/// One transition of the connection state machine, with the actions it asks
/// for, in order.
pub open spec fn spec_step(c: Connection, e: ConnEvent) -> (Connection, Seq<ConnAction>) {
    match (c.phase, e) {
        (ConnPhase::Handshake, ConnEvent::Register(reg)) => {
            if reg.protocol_version > PROTOCOL_VERSION {
                (
                    Connection { phase: ConnPhase::Done { stopped: false }, ..c },
                    seq![
                        ConnAction::Send(ServerEvent::ServerTooOld(PROTOCOL_VERSION)),
                        ConnAction::Close,
                    ],
                )
            } else {
                (
                    Connection {
                        phase: ConnPhase::Admitting,
                        subscribe_to: reg.subscribe_to,
                        matcher: reg.matcher,
                        ..c
                    },
                    seq![],
                )
            }
        },
        (ConnPhase::Handshake, ConnEvent::RegistrationInvalid) => (
            Connection { phase: ConnPhase::Done { stopped: false }, ..c },
            seq![ConnAction::Close],
        ),
        (ConnPhase::Handshake, ConnEvent::Disconnected) => (
            Connection { phase: ConnPhase::Done { stopped: false }, ..c },
            seq![ConnAction::Close],
        ),
        (ConnPhase::Admitting, ConnEvent::LockGranted) => (
            Connection { phase: ConnPhase::AwaitingHandoff, ..c },
            seq![ConnAction::RequestHandoff(c.matcher)],
        ),
        (ConnPhase::Admitting, ConnEvent::LockBusy) => (
            Connection { phase: ConnPhase::WaitingLock, ..c },
            seq![ConnAction::Send(ServerEvent::Busy)],
        ),
        (ConnPhase::WaitingLock, ConnEvent::LockGranted) => (
            Connection { phase: ConnPhase::AwaitingHandoff, ..c },
            seq![ConnAction::RequestHandoff(c.matcher)],
        ),
        (ConnPhase::AwaitingHandoff, ConnEvent::HandoffReady) => (
            Connection { phase: ConnPhase::Active, ..c },
            seq![ConnAction::Send(ServerEvent::Registered(c.id))],
        ),
        (ConnPhase::AwaitingHandoff, ConnEvent::HandoffFailed) => (
            Connection { phase: ConnPhase::Done { stopped: false }, ..c },
            seq![ConnAction::ReleaseLock, ConnAction::Close],
        ),
        (ConnPhase::Active, ConnEvent::Request(req)) => {
            match req {
                ClientRequest::Stop => (
                    Connection { phase: ConnPhase::Done { stopped: true }, ..c },
                    seq![
                        ConnAction::Dispatch(ClientRequest::Stop),
                        ConnAction::ReleaseLock,
                        ConnAction::Close,
                    ],
                ),
                _ => (c, seq![ConnAction::Dispatch(req)]),
            }
        },
        (ConnPhase::Active, ConnEvent::BadLine) => (c, seq![]),
        (ConnPhase::Active, ConnEvent::Disconnected) => (
            Connection { phase: ConnPhase::Done { stopped: true }, ..c },
            seq![
                ConnAction::Dispatch(ClientRequest::Stop),
                ConnAction::ReleaseLock,
                ConnAction::Close,
            ],
        ),
        _ => (c, seq![]),
    }
}

impl Connection {
    /// A fresh connection, as the dispatcher hands it to a handler.
    pub fn new(id: usize) -> (r: Connection)
        ensures
            r.id == id,
            r.phase is Handshake,
            r.subscribe_to == spec_default_mask(),
            r.matcher == Matcher::Fuzzy,
    {
        Connection {
            id,
            phase: ConnPhase::Handshake,
            subscribe_to: SubscriptionMask::default(),
            matcher: Matcher::Fuzzy,
        }
    }

    /// Consume one event and return the actions it calls for.
    pub fn step(&mut self, e: ConnEvent) -> (r: Vec<ConnAction>)
        ensures
            *final(self) == spec_step(*old(self), e).0,
            r@ == spec_step(*old(self), e).1,
    {
        let mut acts: Vec<ConnAction> = Vec::new();
        match (self.phase, e) {
            (ConnPhase::Handshake, ConnEvent::Register(reg)) => {
                if reg.protocol_version > PROTOCOL_VERSION {
                    self.phase = ConnPhase::Done { stopped: false };
                    acts.push(ConnAction::Send(ServerEvent::ServerTooOld(PROTOCOL_VERSION)));
                    acts.push(ConnAction::Close);
                } else {
                    self.phase = ConnPhase::Admitting;
                    self.subscribe_to = reg.subscribe_to;
                    self.matcher = reg.matcher;
                }
            },
            (ConnPhase::Handshake, ConnEvent::RegistrationInvalid) => {
                self.phase = ConnPhase::Done { stopped: false };
                acts.push(ConnAction::Close);
            },
            (ConnPhase::Handshake, ConnEvent::Disconnected) => {
                self.phase = ConnPhase::Done { stopped: false };
                acts.push(ConnAction::Close);
            },
            (ConnPhase::Admitting, ConnEvent::LockGranted) => {
                self.phase = ConnPhase::AwaitingHandoff;
                acts.push(ConnAction::RequestHandoff(self.matcher));
            },
            (ConnPhase::Admitting, ConnEvent::LockBusy) => {
                self.phase = ConnPhase::WaitingLock;
                acts.push(ConnAction::Send(ServerEvent::Busy));
            },
            (ConnPhase::WaitingLock, ConnEvent::LockGranted) => {
                self.phase = ConnPhase::AwaitingHandoff;
                acts.push(ConnAction::RequestHandoff(self.matcher));
            },
            (ConnPhase::AwaitingHandoff, ConnEvent::HandoffReady) => {
                self.phase = ConnPhase::Active;
                acts.push(ConnAction::Send(ServerEvent::Registered(self.id)));
            },
            (ConnPhase::AwaitingHandoff, ConnEvent::HandoffFailed) => {
                self.phase = ConnPhase::Done { stopped: false };
                acts.push(ConnAction::ReleaseLock);
                acts.push(ConnAction::Close);
            },
            (ConnPhase::Active, ConnEvent::Request(req)) => {
                if matches!(req, ClientRequest::Stop) {
                    self.phase = ConnPhase::Done { stopped: true };
                    acts.push(ConnAction::Dispatch(ClientRequest::Stop));
                    acts.push(ConnAction::ReleaseLock);
                    acts.push(ConnAction::Close);
                } else {
                    acts.push(ConnAction::Dispatch(req));
                }
            },
            (ConnPhase::Active, ConnEvent::BadLine) => {},
            (ConnPhase::Active, ConnEvent::Disconnected) => {
                self.phase = ConnPhase::Done { stopped: true };
                acts.push(ConnAction::Dispatch(ClientRequest::Stop));
                acts.push(ConnAction::ReleaseLock);
                acts.push(ConnAction::Close);
            },
            (_, _) => {},
        }
        proof {
            assert(acts@ =~= spec_step(*old(self), e).1);
        }
        acts
    }
}

/// The machine run over a whole sequence of events: the final state and all
/// actions asked for, in order.
pub open spec fn spec_run(c: Connection, es: Seq<ConnEvent>) -> (Connection, Seq<ConnAction>)
    decreases es.len(),
{
    if es.len() == 0 {
        (c, seq![])
    } else {
        let first = spec_step(c, es[0]);
        let rest = spec_run(first.0, es.drop_first());
        (rest.0, first.1 + rest.1)
    }
}

/// A terminal stop handed to the interaction surface.
pub open spec fn is_stop_dispatch(a: ConnAction) -> bool {
    match a {
        ConnAction::Dispatch(req) => req is Stop,
        _ => false,
    }
}

/// A `Registered` confirmation sent to the peer.
pub open spec fn is_registered_send(a: ConnAction) -> bool {
    match a {
        ConnAction::Send(ev) => ev is Registered,
        _ => false,
    }
}

/// A `ServerTooOld` notice sent to the peer.
pub open spec fn is_too_old_send(a: ConnAction) -> bool {
    match a {
        ConnAction::Send(ev) => ev is ServerTooOld,
        _ => false,
    }
}

/// How many of the actions satisfy `pred`.
pub open spec fn count_matching(s: Seq<ConnAction>, pred: spec_fn(ConnAction) -> bool) -> nat
    decreases s.len(),
{
    if s.len() == 0 {
        0
    } else {
        (if pred(s[0]) {
            1nat
        } else {
            0nat
        }) + count_matching(s.drop_first(), pred)
    }
}

proof fn lemma_count_concat(a: Seq<ConnAction>, b: Seq<ConnAction>, pred: spec_fn(ConnAction) -> bool)
    ensures
        count_matching(a + b, pred) == count_matching(a, pred) + count_matching(b, pred),
    decreases a.len(),
{
    if a.len() == 0 {
        assert(a + b =~= b);
    } else {
        assert((a + b)[0] == a[0]);
        assert((a + b).drop_first() =~= a.drop_first() + b);
        lemma_count_concat(a.drop_first(), b, pred);
    }
}

/// How many terminal stops a connection in this phase has already sent the
/// surface: one exactly in a stopped terminal phase.
pub open spec fn stops_of_phase(p: ConnPhase) -> nat {
    match p {
        ConnPhase::Done { stopped } => if stopped {
            1nat
        } else {
            0nat
        },
        _ => 0nat,
    }
}

proof fn lemma_step_stops(c: Connection, e: ConnEvent)
    ensures
        stops_of_phase(spec_step(c, e).0.phase) == stops_of_phase(c.phase) + count_matching(
            spec_step(c, e).1,
            |a: ConnAction| is_stop_dispatch(a),
        ),
{
    reveal_with_fuel(count_matching, 5);
}

/// However a connection's handling runs, the number of terminal stops handed
/// to the interaction surface is decided by the phase it ends in: exactly one
/// once a live session has ended, and none before. In particular, a session
/// whose peer disconnects without sending a stop still produces exactly one,
/// and no run ever produces two.
pub proof fn lemma_stop_dispatched_once(c: Connection, es: Seq<ConnEvent>)
    ensures
        stops_of_phase(spec_run(c, es).0.phase) == stops_of_phase(c.phase) + count_matching(
            spec_run(c, es).1,
            |a: ConnAction| is_stop_dispatch(a),
        ),
    decreases es.len(),
{
    if es.len() > 0 {
        lemma_step_stops(c, es[0]);
        lemma_stop_dispatched_once(spec_step(c, es[0]).0, es.drop_first());
        lemma_count_concat(
            spec_step(c, es[0]).1,
            spec_run(spec_step(c, es[0]).0, es.drop_first()).1,
            |a: ConnAction| is_stop_dispatch(a),
        );
    }
}

/// A finished connection takes no further part: no event produces an action
/// or moves it out of its terminal phase.
pub proof fn lemma_run_done_silent(c: Connection, es: Seq<ConnEvent>)
    requires
        c.phase is Done,
    ensures
        spec_run(c, es).0 == c,
        spec_run(c, es).1 =~= Seq::<ConnAction>::empty(),
    decreases es.len(),
{
    if es.len() > 0 {
        assert(spec_step(c, es[0]).0 == c);
        assert(spec_step(c, es[0]).1 =~= Seq::<ConnAction>::empty());
        lemma_run_done_silent(c, es.drop_first());
        assert(spec_run(c, es).1 =~= spec_step(c, es[0]).1 + spec_run(c, es.drop_first()).1);
    }
}

/// A registration above the supported protocol version draws exactly one
/// `ServerTooOld` notice, and the connection never sees `Registered`,
/// whatever happens afterwards.
pub proof fn lemma_version_gate(c: Connection, reg: Registration, es: Seq<ConnEvent>)
    requires
        c.phase is Handshake,
        reg.protocol_version > PROTOCOL_VERSION,
    ensures
        count_matching(
            spec_run(c, seq![ConnEvent::Register(reg)].add(es)).1,
            |a: ConnAction| is_too_old_send(a),
        ) == 1,
        count_matching(
            spec_run(c, seq![ConnEvent::Register(reg)].add(es)).1,
            |a: ConnAction| is_registered_send(a),
        ) == 0,
        spec_run(c, seq![ConnEvent::Register(reg)].add(es)).0.phase is Done,
{
    let all = seq![ConnEvent::Register(reg)].add(es);
    assert(all[0] == ConnEvent::Register(reg));
    assert(all.drop_first() =~= es);
    let first = spec_step(c, all[0]);
    assert(first.0.phase is Done);
    lemma_run_done_silent(first.0, es);
    let out = spec_run(c, all).1;
    assert(out =~= first.1 + spec_run(first.0, es).1);
    assert(out =~= first.1);
    reveal_with_fuel(count_matching, 4);
    assert(count_matching(out, |a: ConnAction| is_too_old_send(a)) == 1);
    assert(count_matching(out, |a: ConnAction| is_registered_send(a)) == 0);
}

/// An event a connection's surroundings can observe and feed in; admission
/// decisions are not among them, the coordinator makes those itself.
pub open spec fn is_network_event(e: ConnEvent) -> bool {
    match e {
        ConnEvent::LockGranted => false,
        ConnEvent::LockBusy => false,
        _ => true,
    }
}

/// The whole server's coordination state: every connection seen so far, in
/// accept order, and which of them holds the one session lock.
pub struct Coordinator {
    pub lock_held_by: Option<usize>,
    pub conns: Vec<Connection>,
}

impl Coordinator {
    /// The coordination invariant: ids are the accept order, the lock has at
    /// most one holder, and a connection is between admission and release
    /// exactly while it holds the lock.
    pub open spec fn wf(&self) -> bool {
        &&& forall|i: int|
            0 <= i < self.conns@.len() ==> (#[trigger] self.conns@[i]).id == i
        &&& forall|i: int|
            0 <= i < self.conns@.len() && holds_lock((#[trigger] self.conns@[i]).phase)
                ==> self.lock_held_by == Some(i as usize)
        &&& match self.lock_held_by {
            Some(i) => i < self.conns@.len() && holds_lock(self.conns@[i as int].phase),
            None => true,
        }
        &&& forall|i: int|
            0 <= i < self.conns@.len() ==> !((#[trigger] self.conns@[i]).phase is Admitting)
    }

    pub fn new() -> (r: Coordinator)
        ensures
            r.wf(),
            r.conns@.len() == 0,
            r.lock_held_by is None,
    {
        Coordinator { lock_held_by: None, conns: Vec::new() }
    }

    /// Admit a new connection, assigning it the next session id; ids only
    /// ever count up and are never reused.
    pub fn accept(&mut self) -> (id: usize)
        requires
            old(self).wf(),
        ensures
            final(self).wf(),
            id == old(self).conns@.len(),
            final(self).conns@ == old(self).conns@.push(Connection::spec_new(id)),
            final(self).lock_held_by == old(self).lock_held_by,
    {
        let id: usize = self.conns.len();
        self.conns.push(Connection::new(id));
        id
    }

    /// Feed one observed event to the connection it concerns, deciding
    /// admission on a valid registration: the lock is granted at once when
    /// free, else the peer is told it is queued.
    pub fn handle(&mut self, i: usize, e: ConnEvent) -> (r: Vec<ConnAction>)
        requires
            old(self).wf(),
            i < old(self).conns@.len(),
            is_network_event(e),
        ensures
            final(self).wf(),
            final(self).conns@.len() == old(self).conns@.len(),
            forall|k: int|
                0 <= k < old(self).conns@.len() && k != i ==> final(self).conns@[k] == old(
                    self,
                ).conns@[k],
            ({
                let stepped = spec_step(old(self).conns@[i as int], e);
                if stepped.0.phase is Admitting {
                    if old(self).lock_held_by is None {
                        let granted = spec_step(stepped.0, ConnEvent::LockGranted);
                        &&& final(self).conns@[i as int] == granted.0
                        &&& final(self).lock_held_by == Some(i)
                        &&& r@ == stepped.1 + granted.1
                    } else {
                        let queued = spec_step(stepped.0, ConnEvent::LockBusy);
                        &&& final(self).conns@[i as int] == queued.0
                        &&& final(self).lock_held_by == old(self).lock_held_by
                        &&& r@ == stepped.1 + queued.1
                    }
                } else {
                    &&& final(self).conns@[i as int] == stepped.0
                    &&& r@ == stepped.1
                    &&& final(self).lock_held_by == (
                    if holds_lock(old(self).conns@[i as int].phase) && !holds_lock(
                        stepped.0.phase,
                    ) {
                        Option::<usize>::None
                    } else {
                        old(self).lock_held_by
                    })
                }
            }),
    {
        let held_before: bool = is_lock_phase(&self.conns[i].phase);
        let mut acts = self.conns[i].step(e);
        if matches!(self.conns[i].phase, ConnPhase::Admitting) {
            if self.lock_held_by.is_none() {
                self.lock_held_by = Some(i);
                let mut granted = self.conns[i].step(ConnEvent::LockGranted);
                acts.append(&mut granted);
            } else {
                let mut queued = self.conns[i].step(ConnEvent::LockBusy);
                acts.append(&mut queued);
            }
        } else {
            if held_before && !is_lock_phase(&self.conns[i].phase) {
                self.lock_held_by = None;
            }
        }
        acts
    }

    /// Wake one waiting connection and grant it the freed lock. No order
    /// among waiters is promised; the caller picks which one wakes.
    pub fn grant(&mut self, i: usize) -> (r: Vec<ConnAction>)
        requires
            old(self).wf(),
            i < old(self).conns@.len(),
            old(self).lock_held_by is None,
            old(self).conns@[i as int].phase is WaitingLock,
        ensures
            final(self).wf(),
            final(self).conns@.len() == old(self).conns@.len(),
            forall|k: int|
                0 <= k < old(self).conns@.len() && k != i ==> final(self).conns@[k] == old(
                    self,
                ).conns@[k],
            final(self).conns@[i as int] == spec_step(
                old(self).conns@[i as int],
                ConnEvent::LockGranted,
            ).0,
            r@ == spec_step(old(self).conns@[i as int], ConnEvent::LockGranted).1,
            final(self).lock_held_by == Some(i),
    {
        self.lock_held_by = Some(i);
        self.conns[i].step(ConnEvent::LockGranted)
    }
}

impl Connection {
    /// The state `new` hands back, for speaking about it in contracts.
    pub open spec fn spec_new(id: usize) -> Connection {
        Connection {
            id,
            phase: ConnPhase::Handshake,
            subscribe_to: spec_default_mask(),
            matcher: Matcher::Fuzzy,
        }
    }
}

/// Whether this phase holds the session lock.
fn is_lock_phase(p: &ConnPhase) -> (r: bool)
    ensures
        r == holds_lock(*p),
{
    match p {
        ConnPhase::AwaitingHandoff => true,
        ConnPhase::Active => true,
        _ => false,
    }
}

/// The single-flight guarantee: under the coordination invariant, no two
/// connections are live — past their `Registered` confirmation and before
/// their terminal release — at the same time.
pub proof fn lemma_single_flight(s: Coordinator, i: int, j: int)
    requires
        s.wf(),
        0 <= i < s.conns@.len(),
        0 <= j < s.conns@.len(),
        i != j,
        s.conns@[i].phase is Active,
    ensures
        !(s.conns@[j].phase is Active),
{
    assert(holds_lock(s.conns@[i].phase));
    if s.conns@[j].phase is Active {
        assert(holds_lock(s.conns@[j].phase));
    }
}

/// What one surface event becomes for a subscriber: its relayed form when
/// the subscriber's mask includes its kind, nothing otherwise.
pub open spec fn spec_forward_one(e: Event, mask: SubscriptionMask) -> Option<ServerEvent> {
    if mask.spec_contains(e.flag()) {
        Some(spec_event_to_server_event(e))
    } else {
        None
    }
}

/// Filter one surface event against a subscriber's mask and convert it for
/// the wire.
pub fn forward_one(e: Event, mask: SubscriptionMask) -> (r: Option<ServerEvent>)
    ensures
        r == spec_forward_one(e, mask),
{
    if e.needed(mask) {
        Some(ServerEvent::from(e))
    } else {
        None
    }
}

/// Everything a subscriber with `mask` is sent out of the emitted events
/// `es`, in emission order.
pub open spec fn spec_delivered(es: Seq<Event>, mask: SubscriptionMask) -> Seq<ServerEvent>
    decreases es.len(),
{
    if es.len() == 0 {
        Seq::empty()
    } else {
        match spec_forward_one(es[0], mask) {
            Some(se) => seq![se] + spec_delivered(es.drop_first(), mask),
            None => spec_delivered(es.drop_first(), mask),
        }
    }
}

/// Each emitted event the mask includes is delivered exactly when it is
/// emitted, after everything delivered before it — so included events
/// arrive in emission order — and each excluded event is never delivered.
pub proof fn lemma_delivery_in_emission_order(es: Seq<Event>, e: Event, mask: SubscriptionMask)
    ensures
        mask.spec_contains(e.flag()) ==> spec_delivered(es.push(e), mask) =~= spec_delivered(
            es,
            mask,
        ).push(spec_event_to_server_event(e)),
        !mask.spec_contains(e.flag()) ==> spec_delivered(es.push(e), mask) =~= spec_delivered(
            es,
            mask,
        ),
    decreases es.len(),
{
    let all = es.push(e);
    if es.len() == 0 {
        assert(all[0] == e);
        assert(all.drop_first() =~= Seq::<Event>::empty());
        assert(spec_delivered(es, mask) == Seq::<ServerEvent>::empty());
        let relayed = spec_event_to_server_event(e);
        match spec_forward_one(e, mask) {
            Some(se) => {
                assert(spec_delivered(all, mask) == seq![se] + spec_delivered(
                    all.drop_first(),
                    mask,
                ));
                assert(spec_delivered(all, mask) =~= spec_delivered(es, mask).push(relayed));
            },
            None => {
                assert(spec_delivered(all, mask) == spec_delivered(all.drop_first(), mask));
                assert(spec_delivered(all, mask) =~= spec_delivered(es, mask));
            },
        }
    } else {
        assert(all[0] == es[0]);
        assert(all.drop_first() =~= es.drop_first().push(e));
        let tail = es.drop_first();
        lemma_delivery_in_emission_order(tail, e, mask);
        let relayed = spec_event_to_server_event(e);
        match spec_forward_one(es[0], mask) {
            Some(se) => {
                assert(spec_delivered(all, mask) == seq![se] + spec_delivered(
                    tail.push(e),
                    mask,
                ));
                assert(spec_delivered(es, mask) == seq![se] + spec_delivered(tail, mask));
                if mask.spec_contains(e.flag()) {
                    assert(seq![se] + spec_delivered(tail, mask).push(relayed) =~= (seq![se]
                        + spec_delivered(tail, mask)).push(relayed));
                }
            },
            None => {
                assert(spec_delivered(all, mask) == spec_delivered(tail.push(e), mask));
                assert(spec_delivered(es, mask) == spec_delivered(tail, mask));
            },
        }
    }
}

} // verus!
