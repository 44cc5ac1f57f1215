//! A lossless binary form for circuits: a flat sequence of 64-bit words.
//!
//! Components, their connections and their auxiliary states are encoded in
//! full; a wire's subscriber list is encoded but its live value is not, so
//! a decoded circuit's wires all carry the power-on default.

use vstd::prelude::*;

use crate::circuit::{Circuit, CircuitV};
use crate::component::{
    Component, ComponentInstance, ComponentInstanceV, ComponentState, ComponentStateV, Signal,
    SignalState, SignalV,
};

verus! {

broadcast use crate::component::lemma_circuit_view;

/// The word that stands for one signal value.
pub open spec fn sig_word(s: SignalState) -> u64 {
    match s {
        SignalState::High => 0u64,
        SignalState::Low => 1u64,
        SignalState::NotConnected => 2u64,
    }
}

/// The signal value a word stands for, if any.
pub open spec fn sig_of_word(w: u64) -> Option<SignalState> {
    if w == 0 {
        Some(SignalState::High)
    } else if w == 1 {
        Some(SignalState::Low)
    } else if w == 2 {
        Some(SignalState::NotConnected)
    } else {
        None
    }
}

pub open spec fn enc_ids(ids: Seq<usize>) -> Seq<u64> {
    Seq::new(ids.len(), |i: int| ids[i] as u64)
}

pub open spec fn enc_sigstates(p: Seq<SignalState>) -> Seq<u64> {
    Seq::new(p.len(), |i: int| sig_word(p[i]))
}

/// The words of one component kind: a tag, then the kind's parameters.
pub open spec fn enc_kind(k: Component) -> Seq<u64> {
    match k {
        Component::Nand => seq![0u64],
        Component::And => seq![1u64],
        Component::Or => seq![2u64],
        Component::Xor => seq![3u64],
        Component::Not => seq![4u64],
        Component::HighPin => seq![5u64],
        Component::LowPin => seq![6u64],
        Component::Output => seq![7u64],
        Component::Clock(a, b) => seq![8u64, a as u64, b as u64],
        Component::Led => seq![9u64],
        Component::Pin(i) => seq![10u64, i as u64],
        Component::EmbeddedCircuit => seq![11u64],
    }
}

pub open spec fn enc_state(st: ComponentStateV) -> Seq<u64>
    decreases st, 0nat, 0nat,
{
    match st {
        ComponentStateV::Empty => seq![0u64],
        ComponentStateV::Led(b) => seq![
            1u64,
            if b {
                1u64
            } else {
                0u64
            },
        ],
        ComponentStateV::Pins(p) => seq![2u64, p.len() as u64] + enc_sigstates(p),
        ComponentStateV::EmbeddedCircuit(cv) => seq![3u64] + enc_circuit(cv),
    }
}

pub open spec fn enc_instance(ci: ComponentInstanceV) -> Seq<u64>
    decreases ci, 1nat, 0nat,
{
    enc_kind(ci.component) + seq![ci.inputs.len() as u64] + enc_ids(ci.inputs) + seq![
        ci.outputs.len() as u64,
    ] + enc_ids(ci.outputs) + enc_state(ci.state)
}

pub open spec fn enc_instances_from(s: Seq<ComponentInstanceV>, i: int) -> Seq<u64>
    decreases s, 2nat, s.len() - i,
{
    if i < 0 || i >= s.len() {
        Seq::empty()
    } else {
        enc_instance(s[i]) + enc_instances_from(s, i + 1)
    }
}

/// The words of one wire: its subscriber count and subscribers. Its live
/// value is deliberately not part of the form.
pub open spec fn enc_sig(sv: SignalV) -> Seq<u64> {
    seq![sv.subscribers.len() as u64] + enc_ids(sv.subscribers)
}

pub open spec fn enc_sigs_from(ws: Seq<SignalV>, i: int) -> Seq<u64>
    decreases ws, 0nat, ws.len() - i,
{
    if i < 0 || i >= ws.len() {
        Seq::empty()
    } else {
        enc_sig(ws[i]) + enc_sigs_from(ws, i + 1)
    }
}

pub open spec fn enc_circuit(cv: CircuitV) -> Seq<u64>
    decreases cv, 3nat, 0nat,
{
    seq![cv.components.len() as u64] + enc_instances_from(cv.components, 0) + seq![
        cv.wires.len() as u64,
    ] + enc_sigs_from(cv.wires, 0)
}

/// A circuit after a round trip: the same graph, every live wire value
/// back at the power-on default, recursively through embedded circuits.
pub open spec fn reset_state(st: ComponentStateV) -> ComponentStateV
    decreases st, 0nat, 0nat,
{
    match st {
        ComponentStateV::EmbeddedCircuit(cv) => ComponentStateV::EmbeddedCircuit(
            reset_circuit(cv),
        ),
        other => other,
    }
}

pub open spec fn reset_instance(ci: ComponentInstanceV) -> ComponentInstanceV
    decreases ci, 1nat, 0nat,
{
    ComponentInstanceV { state: reset_state(ci.state), ..ci }
}

pub open spec fn reset_instances_from(s: Seq<ComponentInstanceV>, i: int) -> Seq<ComponentInstanceV>
    decreases s, 2nat, s.len() - i,
{
    if i < 0 || i >= s.len() {
        Seq::empty()
    } else {
        seq![reset_instance(s[i])] + reset_instances_from(s, i + 1)
    }
}

pub open spec fn reset_sig(sv: SignalV) -> SignalV {
    SignalV { state: SignalState::NotConnected, subscribers: sv.subscribers }
}

pub open spec fn reset_sigs_from(ws: Seq<SignalV>, i: int) -> Seq<SignalV>
    decreases ws, 0nat, ws.len() - i,
{
    if i < 0 || i >= ws.len() {
        Seq::empty()
    } else {
        seq![reset_sig(ws[i])] + reset_sigs_from(ws, i + 1)
    }
}

pub open spec fn reset_circuit(cv: CircuitV) -> CircuitV
    decreases cv, 3nat, 0nat,
{
    CircuitV {
        components: reset_instances_from(cv.components, 0),
        wires: reset_sigs_from(cv.wires, 0),
    }
}

/// How deeply circuits nest through `EmbeddedCircuit` states; decoding
/// needs at least this much nesting allowance.
pub open spec fn state_depth(st: ComponentStateV) -> nat
    decreases st, 0nat, 0nat,
{
    match st {
        ComponentStateV::EmbeddedCircuit(cv) => circuit_depth(cv) + 1,
        _ => 0,
    }
}

pub open spec fn instances_depth(s: Seq<ComponentInstanceV>, i: int) -> nat
    decreases s, 2nat, s.len() - i,
{
    if i < 0 || i >= s.len() {
        0
    } else {
        let d1 = state_depth(s[i].state);
        let d2 = instances_depth(s, i + 1);
        if d1 > d2 {
            d1
        } else {
            d2
        }
    }
}

pub open spec fn circuit_depth(cv: CircuitV) -> nat
    decreases cv, 3nat, 0nat,
{
    instances_depth(cv.components, 0)
}

/// Every count in the circuit fits in a machine word; true of the view of
/// every circuit value that exists at run time.
pub open spec fn bounded_state(st: ComponentStateV) -> bool
    decreases st, 0nat, 0nat,
{
    match st {
        ComponentStateV::Pins(p) => p.len() <= usize::MAX,
        ComponentStateV::EmbeddedCircuit(cv) => bounded_circuit(cv),
        _ => true,
    }
}

pub open spec fn bounded_instances(s: Seq<ComponentInstanceV>, i: int) -> bool
    decreases s, 2nat, s.len() - i,
{
    i < 0 || i >= s.len() || {
        &&& s[i].inputs.len() <= usize::MAX
        &&& s[i].outputs.len() <= usize::MAX
        &&& bounded_state(s[i].state)
        &&& bounded_instances(s, i + 1)
    }
}

pub open spec fn bounded_circuit(cv: CircuitV) -> bool
    decreases cv, 3nat, 0nat,
{
    &&& cv.components.len() <= usize::MAX
    &&& cv.wires.len() <= usize::MAX
    &&& bounded_instances(cv.components, 0)
    &&& forall|i: int|
        0 <= i < cv.wires.len() ==> (#[trigger] cv.wires[i]).subscribers.len() <= usize::MAX
}

/// Decoding, as a function from the remaining words to the decoded value
/// and the words left over. `None` is a malformed form.
pub open spec fn dec_ids(n: u64, s: Seq<u64>) -> Option<(Seq<usize>, Seq<u64>)>
    decreases n,
{
    if n == 0 {
        Some((Seq::empty(), s))
    } else if s.len() == 0 {
        None
    } else if s[0] > usize::MAX as u64 {
        None
    } else {
        match dec_ids((n - 1) as u64, s.skip(1)) {
            None => None,
            Some((ids, rest)) => Some((seq![s[0] as usize] + ids, rest)),
        }
    }
}

pub open spec fn dec_sigstates(n: u64, s: Seq<u64>) -> Option<(Seq<SignalState>, Seq<u64>)>
    decreases n,
{
    if n == 0 {
        Some((Seq::empty(), s))
    } else if s.len() == 0 {
        None
    } else {
        match sig_of_word(s[0]) {
            None => None,
            Some(v) => match dec_sigstates((n - 1) as u64, s.skip(1)) {
                None => None,
                Some((p, rest)) => Some((seq![v] + p, rest)),
            },
        }
    }
}

pub open spec fn dec_kind(s: Seq<u64>) -> Option<(Component, Seq<u64>)> {
    if s.len() == 0 {
        None
    } else if s[0] == 0 {
        Some((Component::Nand, s.skip(1)))
    } else if s[0] == 1 {
        Some((Component::And, s.skip(1)))
    } else if s[0] == 2 {
        Some((Component::Or, s.skip(1)))
    } else if s[0] == 3 {
        Some((Component::Xor, s.skip(1)))
    } else if s[0] == 4 {
        Some((Component::Not, s.skip(1)))
    } else if s[0] == 5 {
        Some((Component::HighPin, s.skip(1)))
    } else if s[0] == 6 {
        Some((Component::LowPin, s.skip(1)))
    } else if s[0] == 7 {
        Some((Component::Output, s.skip(1)))
    } else if s[0] == 8 {
        if s.len() < 3 || s[1] > usize::MAX as u64 || s[2] > usize::MAX as u64 {
            None
        } else {
            Some((Component::Clock(s[1] as usize, s[2] as usize), s.skip(3)))
        }
    } else if s[0] == 9 {
        Some((Component::Led, s.skip(1)))
    } else if s[0] == 10 {
        if s.len() < 2 || s[1] > usize::MAX as u64 {
            None
        } else {
            Some((Component::Pin(s[1] as usize), s.skip(2)))
        }
    } else if s[0] == 11 {
        Some((Component::EmbeddedCircuit, s.skip(1)))
    } else {
        None
    }
}

pub open spec fn dec_state(s: Seq<u64>, depth: nat) -> Option<(ComponentStateV, Seq<u64>)>
    decreases depth, 0nat, 0nat,
{
    if s.len() == 0 {
        None
    } else if s[0] == 0 {
        Some((ComponentStateV::Empty, s.skip(1)))
    } else if s[0] == 1 {
        if s.len() < 2 {
            None
        } else if s[1] == 1 {
            Some((ComponentStateV::Led(true), s.skip(2)))
        } else if s[1] == 0 {
            Some((ComponentStateV::Led(false), s.skip(2)))
        } else {
            None
        }
    } else if s[0] == 2 {
        if s.len() < 2 {
            None
        } else {
            match dec_sigstates(s[1], s.skip(2)) {
                None => None,
                Some((p, rest)) => Some((ComponentStateV::Pins(p), rest)),
            }
        }
    } else if s[0] == 3 {
        if depth == 0 {
            None
        } else {
            match dec_circuit(s.skip(1), (depth - 1) as nat) {
                None => None,
                Some((cv, rest)) => Some((ComponentStateV::EmbeddedCircuit(cv), rest)),
            }
        }
    } else {
        None
    }
}

pub open spec fn dec_instance(s: Seq<u64>, depth: nat) -> Option<(ComponentInstanceV, Seq<u64>)>
    decreases depth, 1nat, 0nat,
{
    match dec_kind(s) {
        None => None,
        Some((k, s1)) => {
            if s1.len() == 0 {
                None
            } else {
                match dec_ids(s1[0], s1.skip(1)) {
                    None => None,
                    Some((ins, s2)) => {
                        if s2.len() == 0 {
                            None
                        } else {
                            match dec_ids(s2[0], s2.skip(1)) {
                                None => None,
                                Some((outs, s3)) => match dec_state(s3, depth) {
                                    None => None,
                                    Some((st, s4)) => Some(
                                        (
                                            ComponentInstanceV {
                                                component: k,
                                                inputs: ins,
                                                outputs: outs,
                                                state: st,
                                            },
                                            s4,
                                        ),
                                    ),
                                },
                            }
                        }
                    },
                }
            }
        },
    }
}

pub open spec fn dec_instances(n: u64, s: Seq<u64>, depth: nat) -> Option<
    (Seq<ComponentInstanceV>, Seq<u64>),
>
    decreases depth, 2nat, n,
{
    if n == 0 {
        Some((Seq::empty(), s))
    } else {
        match dec_instance(s, depth) {
            None => None,
            Some((ci, rest)) => match dec_instances((n - 1) as u64, rest, depth) {
                None => None,
                Some((cis, rest2)) => Some((seq![ci] + cis, rest2)),
            },
        }
    }
}

pub open spec fn dec_sig(s: Seq<u64>) -> Option<(SignalV, Seq<u64>)> {
    if s.len() == 0 {
        None
    } else {
        match dec_ids(s[0], s.skip(1)) {
            None => None,
            Some((subs, rest)) => Some(
                (SignalV { state: SignalState::NotConnected, subscribers: subs }, rest),
            ),
        }
    }
}

pub open spec fn dec_sigs(n: u64, s: Seq<u64>) -> Option<(Seq<SignalV>, Seq<u64>)>
    decreases n,
{
    if n == 0 {
        Some((Seq::empty(), s))
    } else {
        match dec_sig(s) {
            None => None,
            Some((sv, rest)) => match dec_sigs((n - 1) as u64, rest) {
                None => None,
                Some((ws, rest2)) => Some((seq![sv] + ws, rest2)),
            },
        }
    }
}

pub open spec fn dec_circuit(s: Seq<u64>, depth: nat) -> Option<(CircuitV, Seq<u64>)>
    decreases depth, 3nat, 0nat,
{
    if s.len() == 0 {
        None
    } else {
        match dec_instances(s[0], s.skip(1), depth) {
            None => None,
            Some((cis, s1)) => {
                if s1.len() == 0 {
                    None
                } else {
                    match dec_sigs(s1[0], s1.skip(1)) {
                        None => None,
                        Some((ws, s2)) => Some((CircuitV { components: cis, wires: ws }, s2)),
                    }
                }
            },
        }
    }
}

proof fn lemma_dec_ids(ids: Seq<usize>, rest: Seq<u64>)
    requires
        ids.len() <= usize::MAX,
    ensures
        dec_ids(ids.len() as u64, enc_ids(ids) + rest) == Some((ids, rest)),
    decreases ids.len(),
{
    let s = enc_ids(ids) + rest;
    if ids.len() == 0 {
        assert(s =~= rest);
    } else {
        lemma_dec_ids(ids.skip(1), rest);
        assert(s[0] == ids[0] as u64);
        assert(s.skip(1) =~= enc_ids(ids.skip(1)) + rest);
        assert(ids.skip(1).len() as u64 == (ids.len() as u64 - 1) as u64);
        assert(seq![s[0] as usize] + ids.skip(1) =~= ids);
    }
}

proof fn lemma_dec_sigstates(p: Seq<SignalState>, rest: Seq<u64>)
    requires
        p.len() <= usize::MAX,
    ensures
        dec_sigstates(p.len() as u64, enc_sigstates(p) + rest) == Some((p, rest)),
    decreases p.len(),
{
    let s = enc_sigstates(p) + rest;
    if p.len() == 0 {
        assert(s =~= rest);
    } else {
        lemma_dec_sigstates(p.skip(1), rest);
        assert(s[0] == sig_word(p[0]));
        assert(sig_of_word(sig_word(p[0])) == Some(p[0]));
        assert(s.skip(1) =~= enc_sigstates(p.skip(1)) + rest);
        assert(p.skip(1).len() as u64 == (p.len() as u64 - 1) as u64);
        assert(seq![p[0]] + p.skip(1) =~= p);
    }
}

proof fn lemma_dec_kind(k: Component, rest: Seq<u64>)
    ensures
        dec_kind(enc_kind(k) + rest) == Some((k, rest)),
{
    let s = enc_kind(k) + rest;
    match k {
        Component::Clock(a, b) => {
            assert(s.skip(3) =~= rest);
        },
        Component::Pin(i) => {
            assert(s.skip(2) =~= rest);
        },
        _ => {
            assert(s.skip(1) =~= rest);
        },
    }
}

#[verifier::rlimit(50)]
proof fn lemma_dec_state(st: ComponentStateV, rest: Seq<u64>, depth: nat)
    requires
        bounded_state(st),
        depth >= state_depth(st),
    ensures
        dec_state(enc_state(st) + rest, depth) == Some((reset_state(st), rest)),
    decreases st, 0nat, 0nat,
{
    let s = enc_state(st) + rest;
    match st {
        ComponentStateV::Empty => {
            assert(s.skip(1) =~= rest);
        },
        ComponentStateV::Led(b) => {
            assert(s.skip(2) =~= rest);
        },
        ComponentStateV::Pins(p) => {
            lemma_dec_sigstates(p, rest);
            assert(s[1] == p.len() as u64);
            assert(s.skip(2) =~= enc_sigstates(p) + rest);
        },
        ComponentStateV::EmbeddedCircuit(cv) => {
            lemma_dec_circuit(cv, rest, (depth - 1) as nat);
            assert(s.skip(1) =~= enc_circuit(cv) + rest);
        },
    }
}

proof fn lemma_dec_instance(ci: ComponentInstanceV, rest: Seq<u64>, depth: nat)
    requires
        ci.inputs.len() <= usize::MAX,
        ci.outputs.len() <= usize::MAX,
        bounded_state(ci.state),
        depth >= state_depth(ci.state),
    ensures
        dec_instance(enc_instance(ci) + rest, depth) == Some((reset_instance(ci), rest)),
    decreases ci, 1nat, 0nat,
{
    let t_state = enc_state(ci.state) + rest;
    let t_outs = enc_ids(ci.outputs) + t_state;
    let t_nout = seq![ci.outputs.len() as u64] + t_outs;
    let t_ins = enc_ids(ci.inputs) + t_nout;
    let t_nin = seq![ci.inputs.len() as u64] + t_ins;
    let s = enc_instance(ci) + rest;
    assert(s =~= enc_kind(ci.component) + t_nin);
    lemma_dec_kind(ci.component, t_nin);
    assert(t_nin[0] == ci.inputs.len() as u64);
    assert(t_nin.skip(1) =~= t_ins);
    lemma_dec_ids(ci.inputs, t_nout);
    assert(t_nout[0] == ci.outputs.len() as u64);
    assert(t_nout.skip(1) =~= t_outs);
    lemma_dec_ids(ci.outputs, t_state);
    lemma_dec_state(ci.state, rest, depth);
}

proof fn lemma_dec_instances(s: Seq<ComponentInstanceV>, i: int, rest: Seq<u64>, depth: nat)
    requires
        0 <= i <= s.len(),
        s.len() <= usize::MAX,
        bounded_instances(s, i),
        depth >= instances_depth(s, i),
    ensures
        dec_instances((s.len() - i) as u64, enc_instances_from(s, i) + rest, depth) == Some(
            (reset_instances_from(s, i), rest),
        ),
    decreases s, 2nat, s.len() - i,
{
    if i == s.len() {
        assert(enc_instances_from(s, i) + rest =~= rest);
    } else {
        let tail = enc_instances_from(s, i + 1) + rest;
        lemma_dec_instance(s[i], tail, depth);
        lemma_dec_instances(s, i + 1, rest, depth);
        assert(enc_instances_from(s, i) + rest =~= enc_instance(s[i]) + tail);
        assert(((s.len() - i) as u64 - 1) as u64 == (s.len() - (i + 1)) as u64);
    }
}

proof fn lemma_dec_sig(sv: SignalV, rest: Seq<u64>)
    requires
        sv.subscribers.len() <= usize::MAX,
    ensures
        dec_sig(enc_sig(sv) + rest) == Some((reset_sig(sv), rest)),
{
    let s = enc_sig(sv) + rest;
    assert(s[0] == sv.subscribers.len() as u64);
    assert(s.skip(1) =~= enc_ids(sv.subscribers) + rest);
    lemma_dec_ids(sv.subscribers, rest);
}

proof fn lemma_dec_sigs(ws: Seq<SignalV>, i: int, rest: Seq<u64>)
    requires
        0 <= i <= ws.len(),
        ws.len() <= usize::MAX,
        forall|j: int| i <= j < ws.len() ==> (#[trigger] ws[j]).subscribers.len() <= usize::MAX,
    ensures
        dec_sigs((ws.len() - i) as u64, enc_sigs_from(ws, i) + rest) == Some(
            (reset_sigs_from(ws, i), rest),
        ),
    decreases ws.len() - i,
{
    if i == ws.len() {
        assert(enc_sigs_from(ws, i) + rest =~= rest);
    } else {
        let tail = enc_sigs_from(ws, i + 1) + rest;
        lemma_dec_sig(ws[i], tail);
        lemma_dec_sigs(ws, i + 1, rest);
        assert(enc_sigs_from(ws, i) + rest =~= enc_sig(ws[i]) + tail);
        assert(((ws.len() - i) as u64 - 1) as u64 == (ws.len() - (i + 1)) as u64);
    }
}

proof fn lemma_dec_circuit(cv: CircuitV, rest: Seq<u64>, depth: nat)
    requires
        bounded_circuit(cv),
        depth >= circuit_depth(cv),
    ensures
        dec_circuit(enc_circuit(cv) + rest, depth) == Some((reset_circuit(cv), rest)),
    decreases cv, 3nat, 0nat,
{
    let t_sigs = enc_sigs_from(cv.wires, 0) + rest;
    let t_nw = seq![cv.wires.len() as u64] + t_sigs;
    let t_insts = enc_instances_from(cv.components, 0) + t_nw;
    let s = enc_circuit(cv) + rest;
    assert(s =~= seq![cv.components.len() as u64] + t_insts);
    assert(s[0] == cv.components.len() as u64);
    assert(s.skip(1) =~= t_insts);
    lemma_dec_instances(cv.components, 0, t_nw, depth);
    assert(t_nw[0] == cv.wires.len() as u64);
    assert(t_nw.skip(1) =~= t_sigs);
    lemma_dec_sigs(cv.wires, 0, rest);
}

/// Nesting depth never exceeds the length of the encoded form, so the
/// form's own length is always a sufficient nesting allowance.
proof fn lemma_state_depth_le(st: ComponentStateV)
    ensures
        state_depth(st) <= enc_state(st).len(),
    decreases st, 0nat, 0nat,
{
    match st {
        ComponentStateV::EmbeddedCircuit(cv) => {
            lemma_circuit_depth_le(cv);
        },
        _ => {},
    }
}

proof fn lemma_instances_depth_le(s: Seq<ComponentInstanceV>, i: int)
    requires
        0 <= i <= s.len(),
    ensures
        instances_depth(s, i) <= enc_instances_from(s, i).len(),
    decreases s, 2nat, s.len() - i,
{
    if i < s.len() {
        lemma_state_depth_le(s[i].state);
        lemma_instances_depth_le(s, i + 1);
        assert(enc_instance(s[i]).len() >= enc_state(s[i].state).len());
        assert(enc_instances_from(s, i).len() == enc_instance(s[i]).len() + enc_instances_from(
            s,
            i + 1,
        ).len());
    }
}

proof fn lemma_circuit_depth_le(cv: CircuitV)
    ensures
        circuit_depth(cv) <= enc_circuit(cv).len(),
    decreases cv, 3nat, 0nat,
{
    lemma_instances_depth_le(cv.components, 0);
}

/// The view of every circuit value that exists at run time is bounded.
proof fn lemma_view_state_bounded(st: ComponentState)
    ensures
        bounded_state(st@),
    decreases st, 0nat, 0nat,
{
    match st {
        ComponentState::EmbeddedCircuit(c) => {
            lemma_view_circuit_bounded(c);
        },
        ComponentState::Pins(p) => {
            assert(p.len() == p@.len());
        },
        _ => {},
    }
}

proof fn lemma_view_instances_bounded(c: Circuit, i: int)
    requires
        0 <= i <= c.components.len(),
    ensures
        bounded_instances(c@.components, i),
    decreases c, 2nat, c.components.len() - i,
{
    if i < c.components.len() {
        let ci = c.components[i];
        assert(ci.inputs.len() == ci.inputs@.len());
        assert(ci.outputs.len() == ci.outputs@.len());
        lemma_view_state_bounded(ci.state);
        lemma_view_instances_bounded(c, i + 1);
    }
}

pub proof fn lemma_view_circuit_bounded(c: Circuit)
    ensures
        bounded_circuit(c@),
    decreases c, 3nat, 0nat,
{
    lemma_view_instances_bounded(c, 0);
    assert(c.components.len() == c@.components.len());
    assert(c.wires.len() == c@.wires.len());
    assert forall|i: int|
        0 <= i < c@.wires.len() implies (#[trigger] c@.wires[i]).subscribers.len()
        <= usize::MAX by {
        assert(c@.wires[i] == crate::component::view_signal(c.wires[i]));
        assert(c.wires[i].subscribers.len() == c.wires[i].subscribers@.len());
    }
}

/// Round trip: decoding the encoded form of any circuit, with a nesting
/// allowance at least the circuit's own depth, yields the same circuit
/// with every live wire value reset, and consumes the whole form.
pub proof fn lemma_round_trip(cv: CircuitV, depth: nat)
    requires
        bounded_circuit(cv),
        depth >= circuit_depth(cv),
    ensures
        dec_circuit(enc_circuit(cv), depth) == Some((reset_circuit(cv), Seq::<u64>::empty())),
{
    lemma_dec_circuit(cv, Seq::empty(), depth);
    assert(enc_circuit(cv) + Seq::<u64>::empty() =~= enc_circuit(cv));
}

/// Round trip at the executable boundary: decoding an encoded circuit,
/// with the form's own length as the nesting allowance, always succeeds
/// and yields the reset circuit.
pub proof fn lemma_encode_decode(c: Circuit)
    ensures
        dec_circuit(enc_circuit(c@), enc_circuit(c@).len()) == Some(
            (reset_circuit(c@), Seq::<u64>::empty()),
        ),
{
    lemma_view_circuit_bounded(c);
    lemma_circuit_depth_le(c@);
    lemma_round_trip(c@, enc_circuit(c@).len());
}

pub open spec fn views_of_instances(s: Seq<ComponentInstance>) -> Seq<ComponentInstanceV> {
    Seq::new(s.len(), |i: int| s[i]@)
}

pub open spec fn views_of_sigs(s: Seq<Signal>) -> Seq<SignalV> {
    Seq::new(s.len(), |i: int| s[i]@)
}

fn word_of_sig(s: SignalState) -> (r: u64)
    ensures
        r == sig_word(s),
{
    match s {
        SignalState::High => 0u64,
        SignalState::Low => 1u64,
        SignalState::NotConnected => 2u64,
    }
}

fn sig_from_word(w: u64) -> (r: Option<SignalState>)
    ensures
        r == sig_of_word(w),
{
    if w == 0 {
        Some(SignalState::High)
    } else if w == 1 {
        Some(SignalState::Low)
    } else if w == 2 {
        Some(SignalState::NotConnected)
    } else {
        None
    }
}

fn push_ids(ids: &Vec<usize>, out: &mut Vec<u64>)
    ensures
        final(out)@ == old(out)@ + enc_ids(ids@),
{
    let n = ids.len();
    proof {
        assert(out@ =~= old(out)@ + enc_ids(ids@).subrange(0, 0));
    }
    let mut i: usize = 0;
    while i < n
        invariant
            0 <= i <= n,
            n == ids.len(),
            out@ == old(out)@ + enc_ids(ids@).subrange(0, i as int),
        decreases n - i,
    {
        out.push(ids[i] as u64);
        proof {
            assert(out@ =~= old(out)@ + enc_ids(ids@).subrange(0, i + 1));
        }
        i += 1;
    }
    proof {
        assert(enc_ids(ids@).subrange(0, n as int) =~= enc_ids(ids@));
    }
}

#[verifier::rlimit(100)]
fn encode_instance_into(ci: &ComponentInstance, out: &mut Vec<u64>)
    ensures
        final(out)@ == old(out)@ + enc_instance(ci@),
    decreases *ci, 1nat, 0nat,
{
    match ci.component {
        Component::Nand => out.push(0u64),
        Component::And => out.push(1u64),
        Component::Or => out.push(2u64),
        Component::Xor => out.push(3u64),
        Component::Not => out.push(4u64),
        Component::HighPin => out.push(5u64),
        Component::LowPin => out.push(6u64),
        Component::Output => out.push(7u64),
        Component::Clock(a, b) => {
            out.push(8u64);
            out.push(a as u64);
            out.push(b as u64);
        },
        Component::Led => out.push(9u64),
        Component::Pin(i) => {
            out.push(10u64);
            out.push(i as u64);
        },
        Component::EmbeddedCircuit => out.push(11u64),
    }
    proof {
        assert(out@ =~= old(out)@ + enc_kind(ci@.component));
    }
    out.push(ci.inputs.len() as u64);
    push_ids(&ci.inputs, out);
    proof {
        assert(out@ =~= old(out)@ + enc_kind(ci@.component) + seq![ci@.inputs.len() as u64]
            + enc_ids(ci@.inputs));
    }
    out.push(ci.outputs.len() as u64);
    push_ids(&ci.outputs, out);
    proof {
        assert(out@ =~= old(out)@ + enc_kind(ci@.component) + seq![ci@.inputs.len() as u64]
            + enc_ids(ci@.inputs) + seq![ci@.outputs.len() as u64] + enc_ids(ci@.outputs));
    }
    let ghost o2 = out@;
    match &ci.state {
        ComponentState::Empty => {
            out.push(0u64);
        },
        ComponentState::Led(b) => {
            out.push(1u64);
            out.push(
                if *b {
                    1u64
                } else {
                    0u64
                },
            );
        },
        ComponentState::Pins(p) => {
            out.push(2u64);
            out.push(p.len() as u64);
            let ghost o3 = out@;
            let m = p.len();
            let mut k: usize = 0;
            while k < m
                invariant
                    0 <= k <= m,
                    m == p.len(),
                    out@ == o3 + enc_sigstates(p@).subrange(0, k as int),
                decreases m - k,
            {
                let w = word_of_sig(p[k]);
                out.push(w);
                proof {
                    assert(out@ =~= o3 + enc_sigstates(p@).subrange(0, k + 1));
                }
                k += 1;
            }
            proof {
                assert(enc_sigstates(p@).subrange(0, m as int) =~= enc_sigstates(p@));
            }
        },
        ComponentState::EmbeddedCircuit(c2) => {
            out.push(3u64);
            encode_circuit_into(c2, out);
        },
    }
    proof {
        assert(out@ =~= o2 + enc_state(ci@.state));
        assert(out@ =~= old(out)@ + enc_instance(ci@));
    }
}

fn encode_circuit_into(c: &Circuit, out: &mut Vec<u64>)
    ensures
        final(out)@ == old(out)@ + enc_circuit(c@),
    decreases *c, 3nat, 0nat,
{
    let n = c.components.len();
    out.push(n as u64);
    let ghost base = out@;
    let mut i: usize = 0;
    while i < n
        invariant
            0 <= i <= n,
            n == c.components.len(),
            base == old(out)@ + seq![n as u64],
            out@ + enc_instances_from(c@.components, i as int) == base + enc_instances_from(
                c@.components,
                0,
            ),
        decreases n - i,
    {
        encode_instance_into(&c.components[i], out);
        proof {
            let s = c@.components;
            assert(c@.components[i as int] == c.components[i as int]@);
            assert(out@ + enc_instances_from(s, i + 1) =~= base + enc_instances_from(s, 0));
        }
        i += 1;
    }
    proof {
        assert(enc_instances_from(c@.components, n as int) =~= Seq::<u64>::empty());
        assert(out@ =~= base + enc_instances_from(c@.components, 0));
    }
    let m = c.wires.len();
    out.push(m as u64);
    let ghost base2 = out@;
    let mut j: usize = 0;
    while j < m
        invariant
            0 <= j <= m,
            m == c.wires.len(),
            base2 == old(out)@ + seq![n as u64] + enc_instances_from(c@.components, 0) + seq![
                m as u64,
            ],
            n == c.components.len(),
            out@ + enc_sigs_from(c@.wires, j as int) == base2 + enc_sigs_from(c@.wires, 0),
        decreases m - j,
    {
        let sig = &c.wires[j];
        out.push(sig.subscribers.len() as u64);
        push_ids(&sig.subscribers, out);
        proof {
            let ws = c@.wires;
            assert(ws[j as int] == c.wires[j as int]@);
            assert(enc_sig(ws[j as int]) =~= seq![sig.subscribers.len() as u64] + enc_ids(
                sig.subscribers@,
            ));
            assert(out@ + enc_sigs_from(ws, j + 1) =~= base2 + enc_sigs_from(ws, 0));
        }
        j += 1;
    }
    proof {
        assert(enc_sigs_from(c@.wires, m as int) =~= Seq::<u64>::empty());
        assert(out@ =~= base2 + enc_sigs_from(c@.wires, 0));
        assert(out@ =~= old(out)@ + enc_circuit(c@));
    }
}

/// Encode a circuit into its binary form.
pub fn encode_circuit(c: &Circuit) -> (r: Vec<u64>)
    ensures
        r@ == enc_circuit(c@),
{
    let mut out: Vec<u64> = Vec::new();
    encode_circuit_into(c, &mut out);
    proof {
        assert(out@ =~= enc_circuit(c@));
    }
    out
}

fn decode_ids(n: u64, input: &Vec<u64>, pos: usize) -> (r: Option<(Vec<usize>, usize)>)
    requires
        pos <= input.len(),
    ensures
        match r {
            Some(p) => pos <= p.1 <= input.len() && dec_ids(n, input@.skip(pos as int)) == Some(
                (p.0@, input@.skip(p.1 as int)),
            ),
            None => dec_ids(n, input@.skip(pos as int)) is None,
        },
    decreases n,
{
    if n == 0 {
        let v: Vec<usize> = Vec::new();
        proof {
            assert(v@ =~= Seq::<usize>::empty());
        }
        return Some((v, pos));
    }
    if pos >= input.len() {
        return None;
    }
    let w = input[pos];
    if w > usize::MAX as u64 {
        return None;
    }
    proof {
        assert(input@.skip(pos as int).skip(1) =~= input@.skip(pos as int + 1));
    }
    match decode_ids(n - 1, input, pos + 1) {
        None => None,
        Some((ids, pos2)) => {
            let ghost prev = ids@;
            let mut ids = ids;
            ids.insert(0, w as usize);
            proof {
                assert(ids@ =~= seq![w as usize] + prev);
            }
            Some((ids, pos2))
        },
    }
}

fn decode_sigstates(n: u64, input: &Vec<u64>, pos: usize) -> (r: Option<(Vec<SignalState>, usize)>)
    requires
        pos <= input.len(),
    ensures
        match r {
            Some(p) => pos <= p.1 <= input.len() && dec_sigstates(n, input@.skip(pos as int))
                == Some((p.0@, input@.skip(p.1 as int))),
            None => dec_sigstates(n, input@.skip(pos as int)) is None,
        },
    decreases n,
{
    if n == 0 {
        let v: Vec<SignalState> = Vec::new();
        proof {
            assert(v@ =~= Seq::<SignalState>::empty());
        }
        return Some((v, pos));
    }
    if pos >= input.len() {
        return None;
    }
    let w = input[pos];
    let sv = sig_from_word(w);
    if sv.is_none() {
        return None;
    }
    proof {
        assert(input@.skip(pos as int).skip(1) =~= input@.skip(pos as int + 1));
    }
    match decode_sigstates(n - 1, input, pos + 1) {
        None => None,
        Some((p, pos2)) => {
            let ghost prev = p@;
            let mut p = p;
            p.insert(0, sv.unwrap());
            proof {
                assert(p@ =~= seq![sig_of_word(w)->Some_0] + prev);
            }
            Some((p, pos2))
        },
    }
}

fn decode_kind(input: &Vec<u64>, pos: usize) -> (r: Option<(Component, usize)>)
    requires
        pos <= input.len(),
    ensures
        match r {
            Some(p) => pos <= p.1 <= input.len() && dec_kind(input@.skip(pos as int)) == Some(
                (p.0, input@.skip(p.1 as int)),
            ),
            None => dec_kind(input@.skip(pos as int)) is None,
        },
{
    if pos >= input.len() {
        return None;
    }
    let tag = input[pos];
    if tag == 8 {
        if input.len() - pos < 3 {
            return None;
        }
        let a = input[pos + 1];
        let b = input[pos + 2];
        if a > usize::MAX as u64 || b > usize::MAX as u64 {
            return None;
        }
        Some((Component::Clock(a as usize, b as usize), pos + 3))
    } else if tag == 10 {
        if input.len() - pos < 2 {
            return None;
        }
        let i = input[pos + 1];
        if i > usize::MAX as u64 {
            return None;
        }
        Some((Component::Pin(i as usize), pos + 2))
    } else if tag == 0 {
        Some((Component::Nand, pos + 1))
    } else if tag == 1 {
        Some((Component::And, pos + 1))
    } else if tag == 2 {
        Some((Component::Or, pos + 1))
    } else if tag == 3 {
        Some((Component::Xor, pos + 1))
    } else if tag == 4 {
        Some((Component::Not, pos + 1))
    } else if tag == 5 {
        Some((Component::HighPin, pos + 1))
    } else if tag == 6 {
        Some((Component::LowPin, pos + 1))
    } else if tag == 7 {
        Some((Component::Output, pos + 1))
    } else if tag == 9 {
        Some((Component::Led, pos + 1))
    } else if tag == 11 {
        Some((Component::EmbeddedCircuit, pos + 1))
    } else {
        None
    }
}

fn decode_state(input: &Vec<u64>, pos: usize, depth: usize) -> (r: Option<(ComponentState, usize)>)
    requires
        pos <= input.len(),
    ensures
        match r {
            Some(p) => pos <= p.1 <= input.len() && dec_state(input@.skip(pos as int), depth as nat)
                == Some((p.0@, input@.skip(p.1 as int))),
            None => dec_state(input@.skip(pos as int), depth as nat) is None,
        },
    decreases depth, 0nat, 0nat,
{
    if pos >= input.len() {
        return None;
    }
    let tag = input[pos];
    if tag == 0 {
        Some((ComponentState::Empty, pos + 1))
    } else if tag == 1 {
        if input.len() - pos < 2 {
            return None;
        }
        let b = input[pos + 1];
        if b == 1 {
            Some((ComponentState::Led(true), pos + 2))
        } else if b == 0 {
            Some((ComponentState::Led(false), pos + 2))
        } else {
            None
        }
    } else if tag == 2 {
        if input.len() - pos < 2 {
            return None;
        }
        let n = input[pos + 1];
        proof {
            assert(input@.skip(pos as int).skip(2) =~= input@.skip(pos as int + 2));
        }
        match decode_sigstates(n, input, pos + 2) {
            None => None,
            Some((p, pos2)) => Some((ComponentState::Pins(p), pos2)),
        }
    } else if tag == 3 {
        if depth == 0 {
            return None;
        }
        proof {
            assert(input@.skip(pos as int).skip(1) =~= input@.skip(pos as int + 1));
        }
        match decode_circuit_at(input, pos + 1, depth - 1) {
            None => None,
            Some((c, pos2)) => Some((ComponentState::EmbeddedCircuit(c), pos2)),
        }
    } else {
        None
    }
}

fn decode_instance(input: &Vec<u64>, pos: usize, depth: usize) -> (r: Option<
    (ComponentInstance, usize),
>)
    requires
        pos <= input.len(),
    ensures
        match r {
            Some(p) => pos <= p.1 <= input.len() && dec_instance(
                input@.skip(pos as int),
                depth as nat,
            ) == Some((p.0@, input@.skip(p.1 as int))),
            None => dec_instance(input@.skip(pos as int), depth as nat) is None,
        },
    decreases depth, 1nat, 0nat,
{
    let (k, pos1) = match decode_kind(input, pos) {
        None => {
            return None;
        },
        Some(p) => p,
    };
    if pos1 >= input.len() {
        return None;
    }
    let nin = input[pos1];
    proof {
        assert(input@.skip(pos1 as int).skip(1) =~= input@.skip(pos1 as int + 1));
    }
    let (ins, pos2) = match decode_ids(nin, input, pos1 + 1) {
        None => {
            return None;
        },
        Some(p) => p,
    };
    if pos2 >= input.len() {
        return None;
    }
    let nout = input[pos2];
    proof {
        assert(input@.skip(pos2 as int).skip(1) =~= input@.skip(pos2 as int + 1));
    }
    let (outs, pos3) = match decode_ids(nout, input, pos2 + 1) {
        None => {
            return None;
        },
        Some(p) => p,
    };
    let (st, pos4) = match decode_state(input, pos3, depth) {
        None => {
            return None;
        },
        Some(p) => p,
    };
    Some((ComponentInstance { component: k, inputs: ins, outputs: outs, state: st }, pos4))
}

fn decode_instances(n: u64, input: &Vec<u64>, pos: usize, depth: usize) -> (r: Option<
    (Vec<ComponentInstance>, usize),
>)
    requires
        pos <= input.len(),
    ensures
        match r {
            Some(p) => pos <= p.1 <= input.len() && dec_instances(
                n,
                input@.skip(pos as int),
                depth as nat,
            ) == Some((views_of_instances(p.0@), input@.skip(p.1 as int))),
            None => dec_instances(n, input@.skip(pos as int), depth as nat) is None,
        },
    decreases depth, 2nat, n,
{
    if n == 0 {
        let v: Vec<ComponentInstance> = Vec::new();
        proof {
            assert(views_of_instances(v@) =~= Seq::<ComponentInstanceV>::empty());
        }
        return Some((v, pos));
    }
    let (ci, pos1) = match decode_instance(input, pos, depth) {
        None => {
            return None;
        },
        Some(p) => p,
    };
    match decode_instances(n - 1, input, pos1, depth) {
        None => None,
        Some((cis, pos2)) => {
            let ghost prev = cis@;
            let ghost civ = ci@;
            let mut cis = cis;
            cis.insert(0, ci);
            proof {
                assert(views_of_instances(cis@) =~= seq![civ] + views_of_instances(prev));
            }
            Some((cis, pos2))
        },
    }
}

fn decode_sigs(n: u64, input: &Vec<u64>, pos: usize) -> (r: Option<(Vec<Signal>, usize)>)
    requires
        pos <= input.len(),
    ensures
        match r {
            Some(p) => pos <= p.1 <= input.len() && dec_sigs(n, input@.skip(pos as int)) == Some(
                (views_of_sigs(p.0@), input@.skip(p.1 as int)),
            ),
            None => dec_sigs(n, input@.skip(pos as int)) is None,
        },
    decreases n,
{
    if n == 0 {
        let v: Vec<Signal> = Vec::new();
        proof {
            assert(views_of_sigs(v@) =~= Seq::<SignalV>::empty());
        }
        return Some((v, pos));
    }
    if pos >= input.len() {
        return None;
    }
    let m = input[pos];
    proof {
        assert(input@.skip(pos as int).skip(1) =~= input@.skip(pos as int + 1));
    }
    let (subs, pos1) = match decode_ids(m, input, pos + 1) {
        None => {
            return None;
        },
        Some(p) => p,
    };
    let sig = Signal { state: SignalState::NotConnected, subscribers: subs };
    match decode_sigs(n - 1, input, pos1) {
        None => None,
        Some((ws, pos2)) => {
            let ghost prev = ws@;
            let ghost sv = sig@;
            let mut ws = ws;
            ws.insert(0, sig);
            proof {
                assert(views_of_sigs(ws@) =~= seq![sv] + views_of_sigs(prev));
            }
            Some((ws, pos2))
        },
    }
}

fn decode_circuit_at(input: &Vec<u64>, pos: usize, depth: usize) -> (r: Option<(Circuit, usize)>)
    requires
        pos <= input.len(),
    ensures
        match r {
            Some(p) => pos <= p.1 <= input.len() && dec_circuit(
                input@.skip(pos as int),
                depth as nat,
            ) == Some((p.0@, input@.skip(p.1 as int))),
            None => dec_circuit(input@.skip(pos as int), depth as nat) is None,
        },
    decreases depth, 3nat, 0nat,
{
    if pos >= input.len() {
        return None;
    }
    let n = input[pos];
    proof {
        assert(input@.skip(pos as int).skip(1) =~= input@.skip(pos as int + 1));
    }
    let (cis, pos1) = match decode_instances(n, input, pos + 1, depth) {
        None => {
            return None;
        },
        Some(p) => p,
    };
    if pos1 >= input.len() {
        return None;
    }
    let m = input[pos1];
    proof {
        assert(input@.skip(pos1 as int).skip(1) =~= input@.skip(pos1 as int + 1));
    }
    match decode_sigs(m, input, pos1 + 1) {
        None => None,
        Some((ws, pos2)) => {
            let c = Circuit { components: cis, wires: ws };
            proof {
                assert(c@.components =~= views_of_instances(c.components@));
                assert(c@.wires =~= views_of_sigs(c.wires@));
            }
            Some((c, pos2))
        },
    }
}

/// Decode a binary form; succeeds exactly when the whole input is one
/// well-formed encoded circuit.
pub fn decode_circuit(input: &Vec<u64>) -> (r: Option<Circuit>)
    ensures
        match dec_circuit(input@, input@.len() as nat) {
            Some(p) => if p.1.len() == 0 {
                r is Some && r->Some_0@ == p.0
            } else {
                r is None
            },
            None => r is None,
        },
{
    proof {
        assert(input@.skip(0) =~= input@);
    }
    match decode_circuit_at(input, 0, input.len()) {
        None => None,
        Some((c, pos2)) => {
            if pos2 == input.len() {
                proof {
                    assert(input@.skip(pos2 as int) =~= Seq::<u64>::empty());
                }
                Some(c)
            } else {
                None
            }
        },
    }
}

} // verus!
