//! The discrete-event scheduler: a queue of pending evaluations ordered by
//! logical time, drained to a fixpoint each external tick, with the driver
//! components re-seeded for the next tick.

use vstd::prelude::*;

use crate::circuit::{Circuit, CircuitV, ComponentReference};
use crate::component::{
    spec_exec, spec_is_root, ComponentError, ComponentState, Signal, SignalState, SignalV,
};

verus! {

broadcast use crate::component::lemma_circuit_view;

/// One value an `Output` component observed, tagged with the tick it was
/// observed at.
#[derive(Debug, Clone, Copy, PartialEq, Eq, Structural)]
pub struct Observation {
    pub tick: usize,
    pub value: SignalState,
}

/// One pending evaluation: the component to evaluate, at a logical time
/// within the current tick.
#[derive(Debug, Clone, Copy, PartialEq, Eq, Structural)]
pub struct SimEvent {
    pub time: u64,
    pub component: usize,
}

/// Events are ordered by logical time, ties broken by component identifier,
/// so that evaluation order is reproducible.
pub open spec fn event_le(a: SimEvent, b: SimEvent) -> bool {
    a.time < b.time || (a.time == b.time && a.component <= b.component)
}

pub open spec fn event_lt(a: SimEvent, b: SimEvent) -> bool {
    a.time < b.time || (a.time == b.time && a.component < b.component)
}

/// `i` is the first index of the queue's minimal event.
pub open spec fn is_first_min(q: Seq<SimEvent>, i: int) -> bool {
    &&& 0 <= i < q.len()
    &&& forall|k: int| 0 <= k < q.len() ==> event_le(q[i], #[trigger] q[k])
    &&& forall|k: int| 0 <= k < i ==> event_lt(q[i], #[trigger] q[k])
}

/// The first index of the minimal event of a non-empty queue.
pub open spec fn first_min_index(q: Seq<SimEvent>) -> int {
    choose|i: int| is_first_min(q, i)
}

pub proof fn lemma_first_min_exists(q: Seq<SimEvent>)
    requires
        q.len() > 0,
    ensures
        is_first_min(q, first_min_index(q)),
    decreases q.len(),
{
    if q.len() == 1 {
        assert(is_first_min(q, 0));
    } else {
        let q1 = q.drop_last();
        lemma_first_min_exists(q1);
        let i1 = first_min_index(q1);
        if event_le(q1[i1], q.last()) {
            assert forall|k: int| 0 <= k < q.len() implies event_le(q[i1], #[trigger] q[k]) by {
                if k < q.len() - 1 {
                    assert(q1[k] == q[k]);
                    assert(event_le(q1[i1], q1[k]));
                }
            }
            assert forall|k: int| 0 <= k < i1 implies event_lt(q[i1], #[trigger] q[k]) by {
                assert(q1[k] == q[k]);
                assert(event_lt(q1[i1], q1[k]));
            }
            assert(is_first_min(q, i1));
        } else {
            assert forall|k: int| 0 <= k < q.len() - 1 implies event_lt(
                q[q.len() - 1],
                #[trigger] q[k],
            ) by {
                assert(q1[k] == q[k]);
                assert(event_le(q1[i1], q1[k]));
            }
            assert(is_first_min(q, q.len() - 1));
        }
    }
}

pub proof fn lemma_first_min_unique(q: Seq<SimEvent>, i: int, j: int)
    requires
        is_first_min(q, i),
        is_first_min(q, j),
    ensures
        i == j,
{
    if i < j {
        assert(event_lt(q[j], q[i]));
        assert(event_le(q[i], q[j]));
    }
    if j < i {
        assert(event_lt(q[i], q[j]));
        assert(event_le(q[j], q[i]));
    }
}

/// The seed events for the first `n` components: every driver (root)
/// component at logical time 0, in index order.
pub open spec fn seed_events_upto(cv: CircuitV, n: int) -> Seq<SimEvent>
    decreases n,
{
    if n <= 0 {
        Seq::empty()
    } else {
        seed_events_upto(cv, n - 1) + if spec_is_root(cv.components[n - 1].component) {
            seq![SimEvent { time: 0, component: (n - 1) as usize }]
        } else {
            Seq::empty()
        }
    }
}

/// The queue a tick starts from: every driver component, at time 0.
pub open spec fn seed_events(cv: CircuitV) -> Seq<SimEvent> {
    seed_events_upto(cv, cv.components.len() as int)
}

/// The instantaneous snapshot of all wire values.
pub open spec fn wire_states(ws: Seq<SignalV>) -> Seq<SignalState> {
    Seq::new(ws.len(), |i: int| ws[i].state)
}

/// The wires after committing a snapshot: every value replaced, every
/// subscriber list kept.
pub open spec fn commit_wires(ws: Seq<SignalV>, snap: Seq<SignalState>) -> Seq<SignalV> {
    Seq::new(ws.len(), |i: int| SignalV { state: snap[i], subscribers: ws[i].subscribers })
}

/// One event per subscriber, at time `t`.
pub open spec fn subs_events(subs: Seq<usize>, t: u64) -> Seq<SimEvent> {
    Seq::new(subs.len(), |i: int| SimEvent { time: t, component: subs[i] })
}

/// The events enqueued after one evaluation: for each of the first `n`
/// wires whose committed value differs from its previous value, one event
/// per subscriber of that wire, at time `t`.
pub open spec fn changed_events_upto(
    ws: Seq<SignalV>,
    snap: Seq<SignalState>,
    t: u64,
    n: int,
) -> Seq<SimEvent>
    decreases n,
{
    if n <= 0 {
        Seq::empty()
    } else {
        changed_events_upto(ws, snap, t, n - 1) + if ws[n - 1].state != snap[n - 1] {
            subs_events(ws[n - 1].subscribers, t)
        } else {
            Seq::empty()
        }
    }
}

pub open spec fn changed_events(ws: Seq<SignalV>, snap: Seq<SignalState>, t: u64) -> Seq<SimEvent> {
    changed_events_upto(ws, snap, t, ws.len() as int)
}

/// The view of a sequence of wires.
pub open spec fn sigs_view(s: Seq<Signal>) -> Seq<SignalV> {
    Seq::new(s.len(), |i: int| s[i]@)
}

/// The observations of one evaluation, tagged with the tick.
pub open spec fn obs_of(o: Option<SignalState>, tick: usize) -> Seq<Observation> {
    match o {
        Some(v) => seq![Observation { tick, value: v }],
        None => Seq::empty(),
    }
}

/// How many evaluations one `step` may perform before it gives up with
/// `DidNotSettle`: a documented safety bound, so that a feedback cycle
/// that never settles ends in an error instead of an endless drain.
pub open spec fn spec_budget(cv: CircuitV) -> nat {
    if cv.components.len() <= 0x7FFF_FFFF && cv.wires.len() <= 0x7FFF_FFFF {
        (cv.components.len() + 1) * (cv.wires.len() + 1)
    } else {
        (0x4000_0000_0000_0000u64) as nat
    }
}

/// Everything one drain of the queue produces: the circuit and leftover
/// queue after the drain, the observations made, the components evaluated
/// (in order), and the error that stopped the drain, if any.
#[verifier::ext_equal]
pub struct DrainOut {
    pub circuit: CircuitV,
    pub queue: Seq<SimEvent>,
    pub observations: Seq<Observation>,
    pub trace: Seq<usize>,
    pub error: Option<ComponentError>,
}

/// The drain loop of one `step`, as a function: pop the first minimal
/// event, evaluate its component against a snapshot of all wire values,
/// commit the snapshot, enqueue every subscriber of every changed wire at
/// the next logical time, and recurse until the queue is empty or the fuel
/// runs out.
pub open spec fn spec_drain(cv: CircuitV, q: Seq<SimEvent>, tick: usize, fuel: nat) -> DrainOut
    decreases fuel,
{
    if q.len() == 0 {
        DrainOut {
            circuit: cv,
            queue: q,
            observations: Seq::empty(),
            trace: Seq::empty(),
            error: None,
        }
    } else if fuel == 0 {
        DrainOut {
            circuit: cv,
            queue: q,
            observations: Seq::empty(),
            trace: Seq::empty(),
            error: Some(ComponentError::DidNotSettle),
        }
    } else {
        let i = first_min_index(q);
        let e = q[i];
        let rest = q.remove(i);
        if e.time == u64::MAX {
            DrainOut {
                circuit: cv,
                queue: rest,
                observations: Seq::empty(),
                trace: Seq::empty(),
                error: Some(ComponentError::DidNotSettle),
            }
        } else if e.component >= cv.components.len() {
            DrainOut {
                circuit: cv,
                queue: rest,
                observations: Seq::empty(),
                trace: Seq::empty(),
                error: Some(ComponentError::MissingComponentError(e.component)),
            }
        } else {
            match spec_exec(cv.components[e.component as int], wire_states(cv.wires), tick) {
                Err(err) => DrainOut {
                    circuit: cv,
                    queue: rest,
                    observations: Seq::empty(),
                    trace: Seq::empty(),
                    error: Some(err),
                },
                Ok(ok) => {
                    let cv2 = CircuitV {
                        components: cv.components.update(e.component as int, ok.comp),
                        wires: commit_wires(cv.wires, ok.wires),
                    };
                    let q2 = rest + changed_events(cv.wires, ok.wires, (e.time + 1) as u64);
                    let d = spec_drain(cv2, q2, tick, (fuel - 1) as nat);
                    DrainOut {
                        circuit: d.circuit,
                        queue: d.queue,
                        observations: obs_of(ok.observed, tick) + d.observations,
                        trace: seq![e.component] + d.trace,
                        error: d.error,
                    }
                },
            }
        }
    }
}

/// Every subscriber of a changed wire is among the enqueued events: if
/// wire `j` changed and component `s` subscribes to it, the event
/// `(t, s)` is enqueued.
pub proof fn lemma_changed_events_contain(
    ws: Seq<SignalV>,
    snap: Seq<SignalState>,
    t: u64,
    j: int,
    k: int,
    n: int,
)
    requires
        0 <= j < n <= ws.len(),
        ws[j].state != snap[j],
        0 <= k < ws[j].subscribers.len(),
    ensures
        changed_events_upto(ws, snap, t, n).contains(
            (SimEvent { time: t, component: ws[j].subscribers[k] }),
        ),
    decreases n,
{
    let ev = SimEvent { time: t, component: ws[j].subscribers[k] };
    if n == j + 1 {
        let s = subs_events(ws[j].subscribers, t);
        let pre = changed_events_upto(ws, snap, t, j);
        assert(s[k] == ev);
        assert(changed_events_upto(ws, snap, t, n)[pre.len() + k] == ev);
    } else {
        lemma_changed_events_contain(ws, snap, t, j, k, n - 1);
        let pre = changed_events_upto(ws, snap, t, n - 1);
        let i = choose|i: int| 0 <= i < pre.len() && pre[i] == ev;
        assert(changed_events_upto(ws, snap, t, n)[i] == ev);
    }
}

/// A drain that finishes without error has consumed its whole queue.
pub proof fn lemma_drain_ok_empties_queue(cv: CircuitV, q: Seq<SimEvent>, tick: usize, fuel: nat)
    requires
        spec_drain(cv, q, tick, fuel).error is None,
    ensures
        spec_drain(cv, q, tick, fuel).queue.len() == 0,
    decreases fuel,
{
    if q.len() == 0 {
    } else {
        lemma_first_min_exists(q);
        let i = first_min_index(q);
        let e = q[i];
        let rest = q.remove(i);
        let ok = spec_exec(cv.components[e.component as int], wire_states(cv.wires), tick)->Ok_0;
        let cv2 = CircuitV {
            components: cv.components.update(e.component as int, ok.comp),
            wires: commit_wires(cv.wires, ok.wires),
        };
        let q2 = rest + changed_events(cv.wires, ok.wires, (e.time + 1) as u64);
        lemma_drain_ok_empties_queue(cv2, q2, tick, (fuel - 1) as nat);
    }
}

/// Propagation reaches everything that is scheduled: when a drain finishes
/// without error, every event in the queue had its component evaluated
/// before the queue emptied. Since `spec_drain` enqueues every subscriber
/// of every changed wire, a changed wire's subscribers are all evaluated
/// within the same step.
pub proof fn lemma_drain_evaluates_queued(cv: CircuitV, q: Seq<SimEvent>, tick: usize, fuel: nat)
    requires
        spec_drain(cv, q, tick, fuel).error is None,
    ensures
        forall|k: int|
            0 <= k < q.len() ==> spec_drain(cv, q, tick, fuel).trace.contains(
                #[trigger] q[k].component,
            ),
    decreases fuel,
{
    if q.len() == 0 {
    } else {
        lemma_first_min_exists(q);
        let i = first_min_index(q);
        let e = q[i];
        let rest = q.remove(i);
        let ok = spec_exec(cv.components[e.component as int], wire_states(cv.wires), tick)->Ok_0;
        let cv2 = CircuitV {
            components: cv.components.update(e.component as int, ok.comp),
            wires: commit_wires(cv.wires, ok.wires),
        };
        let q2 = rest + changed_events(cv.wires, ok.wires, (e.time + 1) as u64);
        lemma_drain_evaluates_queued(cv2, q2, tick, (fuel - 1) as nat);
        let d = spec_drain(cv2, q2, tick, (fuel - 1) as nat);
        let tr = spec_drain(cv, q, tick, fuel).trace;
        assert(tr == seq![e.component] + d.trace);
        assert forall|k: int| 0 <= k < q.len() implies tr.contains(#[trigger] q[k].component) by {
            if k == i {
                assert(tr[0] == e.component);
            } else {
                let k2: int = if k < i {
                    k
                } else {
                    k - 1
                };
                assert(rest[k2] == q[k]);
                assert(q2[k2] == q[k]);
                assert(d.trace.contains(q[k].component));
                let w = choose|w: int| 0 <= w < d.trace.len() && d.trace[w] == q[k].component;
                assert(tr[w + 1] == q[k].component);
            }
        }
    }
}

/// Append the seed events of the circuit to the queue.
fn push_seed(queue: &mut Vec<SimEvent>, circuit: &Circuit)
    ensures
        final(queue)@ == old(queue)@ + seed_events(circuit@),
{
    let n = circuit.components.len();
    proof {
        assert(queue@ =~= old(queue)@ + seed_events_upto(circuit@, 0));
    }
    let mut i: usize = 0;
    while i < n
        invariant
            0 <= i <= n,
            n == circuit.components.len(),
            queue@ == old(queue)@ + seed_events_upto(circuit@, i as int),
        decreases n - i,
    {
        if circuit.components[i].component.is_root() {
            queue.push(SimEvent { time: 0, component: i });
        }
        proof {
            assert(queue@ =~= old(queue)@ + seed_events_upto(circuit@, i + 1));
        }
        i += 1;
    }
}

/// Remove and return the first minimal event of a non-empty queue.
fn pop_min(queue: &mut Vec<SimEvent>) -> (r: SimEvent)
    requires
        old(queue).len() > 0,
    ensures
        is_first_min(old(queue)@, first_min_index(old(queue)@)),
        r == old(queue)@[first_min_index(old(queue)@)],
        final(queue)@ == old(queue)@.remove(first_min_index(old(queue)@)),
{
    let mut best: usize = 0;
    let mut k: usize = 1;
    while k < queue.len()
        invariant
            queue@ == old(queue)@,
            queue.len() > 0,
            0 <= best < k,
            k <= queue.len(),
            forall|j: int| 0 <= j < k ==> event_le(queue@[best as int], #[trigger] queue@[j]),
            forall|j: int| 0 <= j < best ==> event_lt(queue@[best as int], #[trigger] queue@[j]),
        decreases queue.len() - k,
    {
        let eb = queue[best];
        let ek = queue[k];
        if ek.time < eb.time || (ek.time == eb.time && ek.component < eb.component) {
            best = k;
        }
        k += 1;
    }
    proof {
        assert(is_first_min(queue@, best as int));
        lemma_first_min_exists(queue@);
        lemma_first_min_unique(queue@, best as int, first_min_index(queue@));
    }
    queue.remove(best)
}

/// Copy the current value of every wire into a fresh snapshot.
fn snapshot(wires: &Vec<Signal>) -> (r: Vec<SignalState>)
    ensures
        r@ == wire_states(sigs_view(wires@)),
{
    let n = wires.len();
    let mut r: Vec<SignalState> = Vec::new();
    let mut i: usize = 0;
    while i < n
        invariant
            0 <= i <= n,
            n == wires.len(),
            r@.len() == i,
            forall|j: int| 0 <= j < i ==> r@[j] == wires@[j].state,
        decreases n - i,
    {
        let s = &wires[i];
        r.push(s.state);
        i += 1;
    }
    proof {
        assert(r@ =~= wire_states(sigs_view(wires@)));
    }
    r
}

/// Commit an evaluated snapshot into the wires: write every changed value
/// and enqueue every subscriber of every changed wire at time `t`.
fn commit_and_enqueue(
    wires: &mut Vec<Signal>,
    snap: &Vec<SignalState>,
    t: u64,
    queue: &mut Vec<SimEvent>,
)
    requires
        old(wires).len() == snap.len(),
    ensures
        sigs_view(final(wires)@) == commit_wires(sigs_view(old(wires)@), snap@),
        final(queue)@ == old(queue)@ + changed_events(sigs_view(old(wires)@), snap@, t),
{
    let n = wires.len();
    proof {
        assert(queue@ =~= old(queue)@ + changed_events_upto(sigs_view(old(wires)@), snap@, t, 0));
    }
    let mut j: usize = 0;
    while j < n
        invariant
            0 <= j <= n,
            n == wires.len(),
            n == snap.len(),
            n == old(wires)@.len(),
            forall|i: int| j <= i < n ==> wires@[i] == old(wires)@[i],
            forall|i: int|
                0 <= i < j ==> wires@[i]@ == (SignalV {
                    state: snap@[i],
                    subscribers: old(wires)@[i]@.subscribers,
                }),
            queue@ == old(queue)@ + changed_events_upto(
                sigs_view(old(wires)@),
                snap@,
                t,
                j as int,
            ),
        decreases n - j,
    {
        let ghost wires_at = wires@;
        let ghost queue_at = queue@;
        let mut sig = wires.remove(j);
        let new_v = snap[j];
        if sig.state != new_v {
            sig.state = new_v;
            let ghost subs = sig.subscribers@;
            let m = sig.subscribers.len();
            let mut k: usize = 0;
            while k < m
                invariant
                    0 <= k <= m,
                    m == sig.subscribers.len(),
                    sig.subscribers@ == subs,
                    queue@ == queue_at + subs_events(subs, t).subrange(0, k as int),
                decreases m - k,
            {
                let s = sig.subscribers[k];
                queue.push(SimEvent { time: t, component: s });
                proof {
                    assert(queue@ =~= queue_at + subs_events(subs, t).subrange(0, k + 1));
                }
                k += 1;
            }
            proof {
                assert(subs_events(subs, t).subrange(0, m as int) =~= subs_events(subs, t));
            }
        }
        let ghost sig_final = sig;
        wires.insert(j, sig);
        proof {
            assert(wires@ =~= wires_at.update(j as int, sig_final));
            assert(queue@ =~= old(queue)@ + changed_events_upto(
                sigs_view(old(wires)@),
                snap@,
                t,
                j + 1,
            ));
        }
        j += 1;
    }
    proof {
        assert(sigs_view(wires@) =~= commit_wires(sigs_view(old(wires)@), snap@));
    }
}

/// The scheduler: owns the circuit it simulates, the pending-evaluation
/// queue, and the values the circuit's `Output` components reported.
pub struct Sim {
    pub circuit: Circuit,
    pub queue: Vec<SimEvent>,
    pub observations: Vec<Observation>,
}

impl Sim {
    /// Take ownership of a circuit and seed the queue with every driver
    /// component at logical time 0.
    pub fn new(circuit: Circuit) -> (r: Self)
        ensures
            r.circuit == circuit,
            r.queue@ == seed_events(circuit@),
            r.observations@ == Seq::<Observation>::empty(),
    {
        let mut queue: Vec<SimEvent> = Vec::new();
        push_seed(&mut queue, &circuit);
        proof {
            assert(queue@ =~= seed_events(circuit@));
        }
        Sim { circuit, queue, observations: Vec::new() }
    }

    /// Read the auxiliary state of one component of the simulated circuit.
    pub fn get_state(&self, r: ComponentReference) -> (res: Result<
        &ComponentState,
        ComponentError,
    >)
        ensures
            r.0 < self.circuit@.components.len() ==> res is Ok && res->Ok_0@
                == self.circuit@.components[r.0 as int].state,
            r.0 >= self.circuit@.components.len() ==> res == Err::<&ComponentState, ComponentError>(
                ComponentError::MissingComponentError(r.0),
            ),
    {
        self.circuit.get_state(r)
    }

    /// The exact budget the drain loop of `step` runs under.
    fn eval_budget(circuit: &Circuit) -> (r: u64)
        ensures
            r == spec_budget(circuit@),
    {
        let nc = circuit.components.len();
        let nw = circuit.wires.len();
        if nc <= 0x7FFF_FFFF && nw <= 0x7FFF_FFFF {
            proof {
                assert((nc as u64 + 1) * (nw as u64 + 1) <= 0x4000_0000_0000_0000u64) by (nonlinear_arith)
                    requires
                        nc <= 0x7FFF_FFFFusize,
                        nw <= 0x7FFF_FFFFusize,
                ;
            }
            (nc as u64 + 1) * (nw as u64 + 1)
        } else {
            0x4000_0000_0000_0000u64
        }
    }

    /// Run one external tick: drain the queue, evaluating components in
    /// logical-time order and propagating changed wire values to their
    /// subscribers, then re-seed the queue with every driver component for
    /// the next tick. The whole behavior is `spec_drain`; an error aborts
    /// the drain, leaving earlier commits in place.
    pub fn step(&mut self, tick: usize) -> (r: Result<(), ComponentError>)
        ensures
            ({
                let d = spec_drain(
                    old(self).circuit@,
                    old(self).queue@,
                    tick,
                    spec_budget(old(self).circuit@),
                );
                &&& final(self).circuit@ == d.circuit
                &&& final(self).observations@ == old(self).observations@ + d.observations
                &&& match d.error {
                    Some(e) => r == Err::<(), ComponentError>(e) && final(self).queue@ == d.queue,
                    None => r == Ok::<(), ComponentError>(()) && final(self).queue@ == seed_events(
                        d.circuit,
                    ),
                }
            }),
    {
        let ghost cv0 = self.circuit@;
        let ghost q0 = self.queue@;
        let ghost obs0 = self.observations@;
        let budget = Self::eval_budget(&self.circuit);
        let mut fuel = budget;
        let ghost mut obs_acc: Seq<Observation> = Seq::empty();
        let ghost d0 = spec_drain(cv0, q0, tick, spec_budget(cv0));
        proof {
            assert(d0.observations =~= obs_acc + spec_drain(
                self.circuit@,
                self.queue@,
                tick,
                fuel as nat,
            ).observations);
        }
        while self.queue.len() > 0
            invariant
                cv0 == old(self).circuit@,
                q0 == old(self).queue@,
                obs0 == old(self).observations@,
                self.observations@ == obs0 + obs_acc,
                d0 == spec_drain(cv0, q0, tick, spec_budget(cv0)),
                ({
                    let din = spec_drain(self.circuit@, self.queue@, tick, fuel as nat);
                    &&& d0.circuit == din.circuit
                    &&& d0.queue == din.queue
                    &&& d0.error == din.error
                    &&& d0.observations == obs_acc + din.observations
                }),
            decreases fuel,
        {
            let ghost cv_it = self.circuit@;
            let ghost q_it = self.queue@;
            let ghost fuel_it = fuel;
            if fuel == 0 {
                proof {
                    assert(d0.observations =~= obs_acc);
                }
                return Err(ComponentError::DidNotSettle);
            }
            let e = pop_min(&mut self.queue);
            proof {
                assert(e == q_it[first_min_index(q_it)]);
                assert(self.queue@ == q_it.remove(first_min_index(q_it)));
            }
            if e.time == u64::MAX {
                proof {
                    assert(d0.observations =~= obs_acc);
                }
                return Err(ComponentError::DidNotSettle);
            }
            if e.component >= self.circuit.components.len() {
                proof {
                    assert(d0.observations =~= obs_acc);
                }
                return Err(ComponentError::MissingComponentError(e.component));
            }
            let mut snap = snapshot(&self.circuit.wires);
            proof {
                assert(snap@ =~= wire_states(cv_it.wires));
            }
            let ghost comps_at = self.circuit.components@;
            let mut ci = self.circuit.components.remove(e.component);
            let ghost ci_at = ci;
            let res = ci.exec(&mut snap, tick);
            let ghost ci2_at = ci;
            self.circuit.components.insert(e.component, ci);
            proof {
                assert(ci_at@ == cv_it.components[e.component as int]);
                assert(self.circuit.components@ =~= comps_at.update(e.component as int, ci2_at));
            }
            match res {
                Err(err) => {
                    proof {
                        assert(self.circuit.components@ =~= comps_at);
                        assert(self.circuit@.components =~= cv_it.components);
                        assert(self.circuit@.wires =~= cv_it.wires);
                        assert(self.circuit@ =~= cv_it);
                        assert(d0.observations =~= obs_acc);
                    }
                    return Err(err);
                },
                Ok(obs) => {
                    if let Some(v) = obs {
                        self.observations.push(Observation { tick, value: v });
                    }
                    let ghost ok = spec_exec(
                        cv_it.components[e.component as int],
                        wire_states(cv_it.wires),
                        tick,
                    )->Ok_0;
                    let ghost wires_at = self.circuit.wires@;
                    let t2 = e.time + 1;
                    commit_and_enqueue(&mut self.circuit.wires, &snap, t2, &mut self.queue);
                    proof {
                        let cv2 = CircuitV {
                            components: cv_it.components.update(e.component as int, ok.comp),
                            wires: commit_wires(cv_it.wires, ok.wires),
                        };
                        assert(ci2_at@ == ok.comp);
                        assert(sigs_view(wires_at) =~= cv_it.wires);
                        assert(self.circuit@.components =~= cv2.components);
                        assert(self.circuit@.wires =~= cv2.wires);
                        assert(self.circuit@ =~= cv2);
                        let q2 = q_it.remove(first_min_index(q_it)) + changed_events(
                            cv_it.wires,
                            ok.wires,
                            (e.time + 1) as u64,
                        );
                        assert(self.queue@ =~= q2);
                        let din_prev = spec_drain(cv_it, q_it, tick, fuel_it as nat);
                        let din_next = spec_drain(cv2, q2, tick, (fuel_it - 1) as nat);
                        assert(din_prev.circuit == din_next.circuit);
                        assert(din_prev.observations == obs_of(ok.observed, tick)
                            + din_next.observations);
                        obs_acc = obs_acc + obs_of(ok.observed, tick);
                        assert(self.observations@ =~= obs0 + obs_acc);
                        assert(d0.observations =~= obs_acc + din_next.observations);
                    }
                },
            }
            fuel = fuel - 1;
        }
        proof {
            assert(d0.observations =~= obs_acc);
        }
        push_seed(&mut self.queue, &self.circuit);
        proof {
            assert(self.queue@ =~= seed_events(self.circuit@));
        }
        Ok(())
    }
}

} // verus!
