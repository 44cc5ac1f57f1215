//! Component kinds, signal values, and the per-kind evaluation and
//! arity-validation rules.

use vstd::prelude::*;

use crate::circuit::{spec_validate_circuit, Circuit, CircuitV};

verus! {

/// The value carried on one wire: a logic level, or the floating state a
/// wire has before anything drives it.
#[derive(Debug, Clone, Copy, PartialEq, Eq, Structural)]
pub enum SignalState {
    High,
    Low,
    NotConnected,
}

/// Which side of a component a connection-count error is about.
#[derive(Debug, Clone, Copy, PartialEq, Eq, Structural)]
pub enum Side {
    Input,
    Output,
}

/// Everything that can go wrong while wiring, validating or evaluating a
/// circuit. Each variant carries the identifier or counts it is about.
#[derive(Debug, Clone, Copy, PartialEq, Eq, Structural)]
pub enum ComponentError {
    /// A side of a component has the wrong number of wires: expected, found.
    WrongConnectionCount(Side, usize, usize),
    /// The referenced component identifier is not in the circuit.
    MissingComponentError(usize),
    /// The referenced wire identifier is not in the circuit.
    MissingWireError(usize),
    /// A component's auxiliary state does not have the shape its kind needs.
    InvalidState,
    /// A step exhausted its evaluation budget without the circuit settling.
    DidNotSettle,
}

/// The closed set of component kinds. `Clock(off_ticks, on_ticks)` is the
/// periodic driver; `Pin(index)` is one boundary slot of a reusable
/// sub-circuit.
#[derive(Debug, Clone, Copy, PartialEq, Eq, Structural)]
pub enum Component {
    Nand,
    And,
    Or,
    Xor,
    Not,
    HighPin,
    LowPin,
    Output,
    Clock(usize, usize),
    Led,
    Pin(usize),
    EmbeddedCircuit,
}

/// Auxiliary per-component state: none, the last value a Led observed, the
/// boundary slots of a sub-circuit, or a whole nested circuit.
#[derive(Debug, PartialEq, Eq)]
pub enum ComponentState {
    Empty,
    Led(bool),
    Pins(Vec<SignalState>),
    EmbeddedCircuit(Circuit),
}

/// One component instance: its kind, its input and output wire identifiers
/// (positional: order matters), and its auxiliary state.
#[derive(Debug, PartialEq, Eq)]
pub struct ComponentInstance {
    pub component: Component,
    pub inputs: Vec<usize>,
    pub outputs: Vec<usize>,
    pub state: ComponentState,
}

/// One wire: its current value and the components to re-evaluate whenever
/// that value changes.
#[derive(Debug, PartialEq, Eq)]
pub struct Signal {
    pub state: SignalState,
    pub subscribers: Vec<usize>,
}

/// Mathematical mirror of `Signal`.
pub struct SignalV {
    pub state: SignalState,
    pub subscribers: Seq<usize>,
}

/// Mathematical mirror of `ComponentState`.
pub enum ComponentStateV {
    Empty,
    Led(bool),
    Pins(Seq<SignalState>),
    EmbeddedCircuit(CircuitV),
}

/// Mathematical mirror of `ComponentInstance`.
pub struct ComponentInstanceV {
    pub component: Component,
    pub inputs: Seq<usize>,
    pub outputs: Seq<usize>,
    pub state: ComponentStateV,
}

pub open spec fn view_signal(s: Signal) -> SignalV {
    SignalV { state: s.state, subscribers: s.subscribers@ }
}

pub open spec fn view_state(st: ComponentState) -> ComponentStateV
    decreases st, 0nat, 0nat,
{
    match st {
        ComponentState::Empty => ComponentStateV::Empty,
        ComponentState::Led(b) => ComponentStateV::Led(b),
        ComponentState::Pins(p) => ComponentStateV::Pins(p@),
        ComponentState::EmbeddedCircuit(c) => ComponentStateV::EmbeddedCircuit(view_circuit(c)),
    }
}

pub open spec fn view_instance(ci: ComponentInstance) -> ComponentInstanceV
    decreases ci, 0nat, 0nat,
{
    ComponentInstanceV {
        component: ci.component,
        inputs: ci.inputs@,
        outputs: ci.outputs@,
        state: view_state(ci.state),
    }
}

pub open spec fn view_instances(c: Circuit, i: int) -> Seq<ComponentInstanceV>
    decreases c, 0nat, c.components.len() - i,
{
    if i < 0 || i >= c.components.len() {
        Seq::empty()
    } else {
        seq![view_instance(c.components[i])] + view_instances(c, i + 1)
    }
}

pub open spec fn view_circuit(c: Circuit) -> CircuitV
    decreases c, 1nat, 0nat,
{
    CircuitV {
        components: view_instances(c, 0),
        wires: Seq::new(c.wires.len() as nat, |i: int| view_signal(c.wires[i])),
    }
}

impl View for Signal {
    type V = SignalV;

    open spec fn view(&self) -> SignalV {
        view_signal(*self)
    }
}

impl View for ComponentState {
    type V = ComponentStateV;

    open spec fn view(&self) -> ComponentStateV {
        view_state(*self)
    }
}

impl View for ComponentInstance {
    type V = ComponentInstanceV;

    open spec fn view(&self) -> ComponentInstanceV {
        view_instance(*self)
    }
}

impl View for Circuit {
    type V = CircuitV;

    open spec fn view(&self) -> CircuitV {
        view_circuit(*self)
    }
}

/// The components of a circuit's view are the views of its components,
/// index by index; likewise for the wires.
pub broadcast proof fn lemma_view_instances_at(c: Circuit, i: int)
    requires
        0 <= i <= c.components.len(),
    ensures
        (#[trigger] view_instances(c, i)).len() == c.components.len() - i,
        forall|j: int|
            i <= j < c.components.len() ==> view_instances(c, i)[j - i] == view_instance(
                c.components[j],
            ),
    decreases c.components.len() - i,
{
    if i < c.components.len() {
        lemma_view_instances_at(c, i + 1);
    }
}

pub broadcast proof fn lemma_circuit_view(c: Circuit)
    ensures
        (#[trigger] view_circuit(c)).components.len() == c.components.len(),
        forall|i: int|
            0 <= i < c.components.len() ==> view_circuit(c).components[i] == view_instance(
                c.components[i],
            ),
        view_circuit(c).wires.len() == c.wires.len(),
        forall|i: int|
            0 <= i < c.wires.len() ==> view_circuit(c).wires[i] == view_signal(c.wires[i]),
{
    lemma_view_instances_at(c, 0);
}

/// Truth table of the Nand gate under three-valued logic.
pub open spec fn nand_out(a: SignalState, b: SignalState) -> SignalState {
    if a is NotConnected || b is NotConnected {
        SignalState::NotConnected
    } else if a is High && b is High {
        SignalState::Low
    } else {
        SignalState::High
    }
}

/// Truth table of the And gate under three-valued logic.
pub open spec fn and_out(a: SignalState, b: SignalState) -> SignalState {
    if a is NotConnected || b is NotConnected {
        SignalState::NotConnected
    } else if a is High && b is High {
        SignalState::High
    } else {
        SignalState::Low
    }
}

/// Truth table of the Or gate under three-valued logic.
pub open spec fn or_out(a: SignalState, b: SignalState) -> SignalState {
    if a is NotConnected || b is NotConnected {
        SignalState::NotConnected
    } else if a is Low && b is Low {
        SignalState::Low
    } else {
        SignalState::High
    }
}

/// Truth table of the Xor gate under three-valued logic.
pub open spec fn xor_out(a: SignalState, b: SignalState) -> SignalState {
    if a is NotConnected || b is NotConnected {
        SignalState::NotConnected
    } else if (a is High && b is High) || (a is Low && b is Low) {
        SignalState::Low
    } else {
        SignalState::High
    }
}

/// Truth table of the Not gate under three-valued logic.
pub open spec fn not_out(a: SignalState) -> SignalState {
    match a {
        SignalState::High => SignalState::Low,
        SignalState::Low => SignalState::High,
        SignalState::NotConnected => SignalState::NotConnected,
    }
}

/// Dispatch over the four two-input gate kinds.
pub open spec fn gate2_out(k: Component, a: SignalState, b: SignalState) -> SignalState {
    match k {
        Component::Nand => nand_out(a, b),
        Component::And => and_out(a, b),
        Component::Or => or_out(a, b),
        Component::Xor => xor_out(a, b),
        _ => SignalState::NotConnected,
    }
}

/// A floating input makes every two-input gate's output float.
pub proof fn lemma_gate2_not_connected(k: Component, a: SignalState, b: SignalState)
    requires
        k is Nand || k is And || k is Or || k is Xor,
        a is NotConnected || b is NotConnected,
    ensures
        gate2_out(k, a, b) is NotConnected,
{
}

/// The clock output: High for the first `on_ticks` ticks of each period of
/// `off_ticks + on_ticks` ticks, Low for the rest. A clock whose period is
/// zero drives Low.
pub open spec fn clock_out(off_ticks: usize, on_ticks: usize, tick: usize) -> SignalState {
    if off_ticks + on_ticks == 0 {
        SignalState::Low
    } else if (tick as int) % (off_ticks + on_ticks) < on_ticks {
        SignalState::High
    } else {
        SignalState::Low
    }
}

/// A clock is periodic: its output at `tick + off_ticks + on_ticks` is its
/// output at `tick`.
pub proof fn lemma_clock_periodic(off_ticks: usize, on_ticks: usize, tick: usize)
    requires
        off_ticks + on_ticks > 0,
        tick + off_ticks + on_ticks <= usize::MAX,
    ensures
        clock_out(off_ticks, on_ticks, (tick + off_ticks + on_ticks) as usize) == clock_out(
            off_ticks,
            on_ticks,
            tick,
        ),
{
    vstd::arithmetic::div_mod::lemma_mod_add_multiples_vanish(
        tick as int,
        off_ticks + on_ticks,
    );
}

/// A `Clock(1, 1)` is High on every even tick and Low on every odd tick.
pub proof fn lemma_clock_alternates(tick: usize)
    ensures
        clock_out(1, 1, tick) == (if tick % 2 == 0 {
            SignalState::High
        } else {
            SignalState::Low
        }),
{
}

pub open spec fn spec_is_root(c: Component) -> bool {
    c is HighPin || c is LowPin || c is Clock
}

/// The arity rule of each component kind: binary gates take exactly two
/// inputs and one output, `Not` one and one, drivers no inputs and one
/// output, the `Output` and `Led` sinks one input and at most one output,
/// a `Pin` exactly one connection in total, and an embedded circuit must
/// itself hold a valid circuit as its state.
pub open spec fn spec_validate(ci: ComponentInstanceV) -> Result<(), ComponentError>
    decreases ci, 1nat, 0nat,
{
    match ci.component {
        Component::Nand | Component::And | Component::Or | Component::Xor => {
            if ci.inputs.len() != 2 {
                Err(ComponentError::WrongConnectionCount(Side::Input, 2, ci.inputs.len() as usize))
            } else if ci.outputs.len() != 1 {
                Err(
                    ComponentError::WrongConnectionCount(
                        Side::Output,
                        1,
                        ci.outputs.len() as usize,
                    ),
                )
            } else {
                Ok(())
            }
        },
        Component::Not => {
            if ci.inputs.len() != 1 {
                Err(ComponentError::WrongConnectionCount(Side::Input, 1, ci.inputs.len() as usize))
            } else if ci.outputs.len() != 1 {
                Err(
                    ComponentError::WrongConnectionCount(
                        Side::Output,
                        1,
                        ci.outputs.len() as usize,
                    ),
                )
            } else {
                Ok(())
            }
        },
        Component::HighPin | Component::LowPin => {
            if ci.inputs.len() != 0 {
                Err(ComponentError::WrongConnectionCount(Side::Input, 0, ci.inputs.len() as usize))
            } else if ci.outputs.len() != 1 {
                Err(
                    ComponentError::WrongConnectionCount(
                        Side::Output,
                        1,
                        ci.outputs.len() as usize,
                    ),
                )
            } else {
                Ok(())
            }
        },
        Component::Output => {
            if ci.inputs.len() != 1 {
                Err(ComponentError::WrongConnectionCount(Side::Input, 1, ci.inputs.len() as usize))
            } else if ci.outputs.len() > 1 {
                Err(
                    ComponentError::WrongConnectionCount(
                        Side::Output,
                        1,
                        ci.outputs.len() as usize,
                    ),
                )
            } else {
                Ok(())
            }
        },
        Component::Clock(_, _) => {
            if ci.inputs.len() != 0 {
                Err(ComponentError::WrongConnectionCount(Side::Input, 0, ci.inputs.len() as usize))
            } else if ci.outputs.len() != 1 {
                Err(
                    ComponentError::WrongConnectionCount(
                        Side::Output,
                        1,
                        ci.outputs.len() as usize,
                    ),
                )
            } else {
                Ok(())
            }
        },
        Component::Led => {
            if ci.inputs.len() != 1 {
                Err(ComponentError::WrongConnectionCount(Side::Input, 1, ci.inputs.len() as usize))
            } else if ci.outputs.len() > 1 {
                Err(
                    ComponentError::WrongConnectionCount(
                        Side::Output,
                        1,
                        ci.outputs.len() as usize,
                    ),
                )
            } else {
                Ok(())
            }
        },
        Component::Pin(_) => {
            // a pin has either one input or one output, never both; the
            // reported count saturates at usize::MAX
            if ci.inputs.len() + ci.outputs.len() != 1 {
                Err(
                    ComponentError::WrongConnectionCount(
                        Side::Input,
                        1,
                        if ci.inputs.len() + ci.outputs.len() > usize::MAX {
                            usize::MAX
                        } else {
                            (ci.inputs.len() + ci.outputs.len()) as usize
                        },
                    ),
                )
            } else {
                Ok(())
            }
        },
        Component::EmbeddedCircuit => match ci.state {
            ComponentStateV::EmbeddedCircuit(cv) => spec_validate_circuit(cv),
            _ => Err(ComponentError::InvalidState),
        },
    }
}

/// What a Led stores after observing one value.
pub open spec fn led_state(v: SignalState) -> ComponentStateV {
    match v {
        SignalState::High => ComponentStateV::Led(true),
        SignalState::Low => ComponentStateV::Led(false),
        SignalState::NotConnected => ComponentStateV::Empty,
    }
}

/// The outcome of one successful component evaluation: the component after
/// the step, the wire snapshot after the step, and what an `Output`
/// component observed, if anything.
pub struct ExecOk {
    pub comp: ComponentInstanceV,
    pub wires: Seq<SignalState>,
    pub observed: Option<SignalState>,
}

/// Evaluation of one `Pin` component against a wire snapshot.
pub open spec fn spec_exec_pin(ci: ComponentInstanceV, wires: Seq<SignalState>, idx: usize) -> Result<
    ExecOk,
    ComponentError,
> {
    match ci.state {
        ComponentStateV::Pins(p) => {
            if idx >= p.len() {
                Err(ComponentError::InvalidState)
            } else if ci.inputs.len() == 1 {
                let i0 = ci.inputs[0];
                if i0 >= wires.len() {
                    Err(ComponentError::MissingWireError(i0))
                } else {
                    Ok(
                        ExecOk {
                            comp: ComponentInstanceV {
                                state: ComponentStateV::Pins(p.update(idx as int, wires[i0 as int])),
                                ..ci
                            },
                            wires,
                            observed: None,
                        },
                    )
                }
            } else {
                let o0 = ci.outputs[0];
                if o0 >= wires.len() {
                    Err(ComponentError::MissingWireError(o0))
                } else {
                    Ok(
                        ExecOk {
                            comp: ci,
                            wires: wires.update(o0 as int, p[idx as int]),
                            observed: None,
                        },
                    )
                }
            }
        },
        _ => Ok(ExecOk { comp: ci, wires, observed: None }),
    }
}

/// Evaluation of one already-validated component against a wire snapshot:
/// reads its input wires, writes at most one output wire, and updates its
/// own state (Led, Pin). Out-of-range wire identifiers are errors.
pub open spec fn spec_exec_valid(
    ci: ComponentInstanceV,
    wires: Seq<SignalState>,
    tick: usize,
) -> Result<ExecOk, ComponentError> {
    match ci.component {
        Component::Nand | Component::And | Component::Or | Component::Xor => {
            let i0 = ci.inputs[0];
            let i1 = ci.inputs[1];
            let o0 = ci.outputs[0];
            if i0 >= wires.len() {
                Err(ComponentError::MissingWireError(i0))
            } else if i1 >= wires.len() {
                Err(ComponentError::MissingWireError(i1))
            } else if o0 >= wires.len() {
                Err(ComponentError::MissingWireError(o0))
            } else {
                Ok(
                    ExecOk {
                        comp: ci,
                        wires: wires.update(
                            o0 as int,
                            gate2_out(ci.component, wires[i0 as int], wires[i1 as int]),
                        ),
                        observed: None,
                    },
                )
            }
        },
        Component::Not => {
            let i0 = ci.inputs[0];
            let o0 = ci.outputs[0];
            if i0 >= wires.len() {
                Err(ComponentError::MissingWireError(i0))
            } else if o0 >= wires.len() {
                Err(ComponentError::MissingWireError(o0))
            } else {
                Ok(
                    ExecOk {
                        comp: ci,
                        wires: wires.update(o0 as int, not_out(wires[i0 as int])),
                        observed: None,
                    },
                )
            }
        },
        Component::HighPin => {
            let o0 = ci.outputs[0];
            if o0 >= wires.len() {
                Err(ComponentError::MissingWireError(o0))
            } else {
                Ok(
                    ExecOk {
                        comp: ci,
                        wires: wires.update(o0 as int, SignalState::High),
                        observed: None,
                    },
                )
            }
        },
        Component::LowPin => {
            let o0 = ci.outputs[0];
            if o0 >= wires.len() {
                Err(ComponentError::MissingWireError(o0))
            } else {
                Ok(
                    ExecOk {
                        comp: ci,
                        wires: wires.update(o0 as int, SignalState::Low),
                        observed: None,
                    },
                )
            }
        },
        Component::Output => {
            let i0 = ci.inputs[0];
            if i0 >= wires.len() {
                Err(ComponentError::MissingWireError(i0))
            } else {
                Ok(ExecOk { comp: ci, wires, observed: Some(wires[i0 as int]) })
            }
        },
        Component::Clock(off_ticks, on_ticks) => {
            let o0 = ci.outputs[0];
            if o0 >= wires.len() {
                Err(ComponentError::MissingWireError(o0))
            } else {
                Ok(
                    ExecOk {
                        comp: ci,
                        wires: wires.update(o0 as int, clock_out(off_ticks, on_ticks, tick)),
                        observed: None,
                    },
                )
            }
        },
        Component::Led => {
            let i0 = ci.inputs[0];
            if i0 >= wires.len() {
                Err(ComponentError::MissingWireError(i0))
            } else {
                Ok(
                    ExecOk {
                        comp: ComponentInstanceV { state: led_state(wires[i0 as int]), ..ci },
                        wires,
                        observed: None,
                    },
                )
            }
        },
        Component::Pin(idx) => spec_exec_pin(ci, wires, idx),
        Component::EmbeddedCircuit => Ok(ExecOk { comp: ci, wires, observed: None }),
    }
}

/// Evaluation of one component: validate its arity first, then apply its
/// kind's rule.
pub open spec fn spec_exec(ci: ComponentInstanceV, wires: Seq<SignalState>, tick: usize) -> Result<
    ExecOk,
    ComponentError,
> {
    match spec_validate(ci) {
        Err(e) => Err(e),
        Ok(_) => spec_exec_valid(ci, wires, tick),
    }
}

/// The four two-input gates, as executable code.
fn eval_gate2(k: Component, a: SignalState, b: SignalState) -> (r: SignalState)
    requires
        k is Nand || k is And || k is Or || k is Xor,
    ensures
        r == gate2_out(k, a, b),
{
    match k {
        Component::Nand => match (a, b) {
            (SignalState::High, SignalState::High) => SignalState::Low,
            (SignalState::NotConnected, _) => SignalState::NotConnected,
            (_, SignalState::NotConnected) => SignalState::NotConnected,
            _ => SignalState::High,
        },
        Component::And => match (a, b) {
            (SignalState::High, SignalState::High) => SignalState::High,
            (SignalState::NotConnected, _) => SignalState::NotConnected,
            (_, SignalState::NotConnected) => SignalState::NotConnected,
            _ => SignalState::Low,
        },
        Component::Or => match (a, b) {
            (SignalState::Low, SignalState::Low) => SignalState::Low,
            (SignalState::NotConnected, _) => SignalState::NotConnected,
            (_, SignalState::NotConnected) => SignalState::NotConnected,
            _ => SignalState::High,
        },
        _ => match (a, b) {
            (SignalState::High, SignalState::High) => SignalState::Low,
            (SignalState::Low, SignalState::Low) => SignalState::Low,
            (SignalState::NotConnected, _) => SignalState::NotConnected,
            (_, SignalState::NotConnected) => SignalState::NotConnected,
            _ => SignalState::High,
        },
    }
}

/// The clock rule, free of overflow: when `off_ticks + on_ticks` would
/// exceed `usize::MAX`, the tick is always inside the first period.
fn clock_value(off_ticks: usize, on_ticks: usize, tick: usize) -> (r: SignalState)
    ensures
        r == clock_out(off_ticks, on_ticks, tick),
{
    if on_ticks == 0 {
        SignalState::Low
    } else if off_ticks > usize::MAX - on_ticks {
        proof {
            vstd::arithmetic::div_mod::lemma_small_mod(
                tick as nat,
                (off_ticks + on_ticks) as nat,
            );
        }
        if tick < on_ticks {
            SignalState::High
        } else {
            SignalState::Low
        }
    } else {
        let t = tick % (off_ticks + on_ticks);
        if t < on_ticks {
            SignalState::High
        } else {
            SignalState::Low
        }
    }
}

impl Component {
    /// A root (driver) component has no inputs and must be re-evaluated at
    /// the start of every external tick.
    pub fn is_root(&self) -> (r: bool)
        ensures
            r == spec_is_root(*self),
    {
        match self {
            Component::HighPin | Component::LowPin | Component::Clock(_, _) => true,
            _ => false,
        }
    }
}

impl ComponentState {
    /// True of the state that carries no information.
    pub fn is_empty(&self) -> (r: bool)
        ensures
            r == (*self is Empty),
    {
        matches!(self, ComponentState::Empty)
    }
}

impl ComponentInstance {
    /// A fresh instance of the given kind: no connections, empty state.
    pub fn new(component: Component) -> (r: Self)
        ensures
            r@.component == component,
            r@.inputs == Seq::<usize>::empty(),
            r@.outputs == Seq::<usize>::empty(),
            r@.state == ComponentStateV::Empty,
    {
        let r = Self { component, inputs: Vec::new(), outputs: Vec::new(), state: ComponentState::Empty };
        proof {
            assert(r@.inputs =~= Seq::<usize>::empty());
            assert(r@.outputs =~= Seq::<usize>::empty());
        }
        r
    }

    /// Record one more input wire (order matters: positional).
    pub fn add_input(&mut self, wire: usize)
        ensures
            final(self)@ == (ComponentInstanceV { inputs: old(self)@.inputs.push(wire), ..old(self)@ }),
    {
        self.inputs.push(wire);
    }

    /// Record one more output wire. The wire itself is allocated and owned
    /// by the circuit, which passes its identifier in.
    pub fn add_output(&mut self, wire: usize)
        ensures
            final(self)@ == (ComponentInstanceV { outputs: old(self)@.outputs.push(wire), ..old(self)@ }),
    {
        self.outputs.push(wire);
    }

    /// Replace the auxiliary state, returning the previous one.
    pub fn set_state(&mut self, state: ComponentState) -> (r: ComponentState)
        ensures
            final(self)@ == (ComponentInstanceV { state: state@, ..old(self)@ }),
            r@ == old(self)@.state,
    {
        let mut st = state;
        core::mem::swap(&mut st, &mut self.state);
        st
    }

    /// Read the auxiliary state.
    pub fn get_state(&self) -> (r: &ComponentState)
        ensures
            r@ == self@.state,
    {
        &self.state
    }

    /// Check this component's connection counts against its kind's arity
    /// rule; an embedded circuit is validated recursively.
    pub fn validate_component(&self) -> (r: Result<(), ComponentError>)
        ensures
            r == spec_validate(self@),
        decreases *self, 1nat, 0nat,
    {
        match self.component {
            Component::Nand | Component::And | Component::Or | Component::Xor => {
                if self.inputs.len() != 2 {
                    return Err(
                        ComponentError::WrongConnectionCount(Side::Input, 2, self.inputs.len()),
                    );
                }
                if self.outputs.len() != 1 {
                    return Err(
                        ComponentError::WrongConnectionCount(Side::Output, 1, self.outputs.len()),
                    );
                }
                Ok(())
            },
            Component::Not => {
                if self.inputs.len() != 1 {
                    return Err(
                        ComponentError::WrongConnectionCount(Side::Input, 1, self.inputs.len()),
                    );
                }
                if self.outputs.len() != 1 {
                    return Err(
                        ComponentError::WrongConnectionCount(Side::Output, 1, self.outputs.len()),
                    );
                }
                Ok(())
            },
            Component::HighPin | Component::LowPin => {
                if self.inputs.len() != 0 {
                    return Err(
                        ComponentError::WrongConnectionCount(Side::Input, 0, self.inputs.len()),
                    );
                }
                if self.outputs.len() != 1 {
                    return Err(
                        ComponentError::WrongConnectionCount(Side::Output, 1, self.outputs.len()),
                    );
                }
                Ok(())
            },
            Component::Output => {
                if self.inputs.len() != 1 {
                    return Err(
                        ComponentError::WrongConnectionCount(Side::Input, 1, self.inputs.len()),
                    );
                }
                if self.outputs.len() > 1 {
                    return Err(
                        ComponentError::WrongConnectionCount(Side::Output, 1, self.outputs.len()),
                    );
                }
                Ok(())
            },
            Component::Clock(_, _) => {
                if self.inputs.len() != 0 {
                    return Err(
                        ComponentError::WrongConnectionCount(Side::Input, 0, self.inputs.len()),
                    );
                }
                if self.outputs.len() != 1 {
                    return Err(
                        ComponentError::WrongConnectionCount(Side::Output, 1, self.outputs.len()),
                    );
                }
                Ok(())
            },
            Component::Led => {
                if self.inputs.len() != 1 {
                    return Err(
                        ComponentError::WrongConnectionCount(Side::Input, 1, self.inputs.len()),
                    );
                }
                if self.outputs.len() > 1 {
                    return Err(
                        ComponentError::WrongConnectionCount(Side::Output, 1, self.outputs.len()),
                    );
                }
                Ok(())
            },
            Component::Pin(_) => {
                // a pin has either one input or one output, never both
                if self.inputs.len() > usize::MAX - self.outputs.len()
                    || self.inputs.len() + self.outputs.len() != 1 {
                    proof {
                        assert(self@.inputs.len() + self@.outputs.len() != 1);
                    }
                    return Err(
                        ComponentError::WrongConnectionCount(
                            Side::Input,
                            1,
                            if self.inputs.len() > usize::MAX - self.outputs.len() {
                                usize::MAX
                            } else {
                                self.inputs.len() + self.outputs.len()
                            },
                        ),
                    );
                }
                Ok(())
            },
            Component::EmbeddedCircuit => match &self.state {
                ComponentState::EmbeddedCircuit(circuit) => circuit.validate(),
                _ => Err(ComponentError::InvalidState),
            },
        }
    }

    /// Evaluate this component against a snapshot of all wire values,
    /// writing at most one output value into the snapshot. Returns what an
    /// `Output` component observed, so a caller can report it.
    pub fn exec(&mut self, wires: &mut Vec<SignalState>, tick: usize) -> (r: Result<
        Option<SignalState>,
        ComponentError,
    >)
        ensures
            ({
                let s = spec_exec(old(self)@, old(wires)@, tick);
                match s {
                    Ok(ok) => r == Ok::<Option<SignalState>, ComponentError>(ok.observed)
                        && final(self)@ == ok.comp && final(wires)@ == ok.wires,
                    Err(e) => r == Err::<Option<SignalState>, ComponentError>(e) && *final(self)
                        == *old(self) && final(wires)@ == old(wires)@,
                }
            }),
    {
        if let Err(e) = self.validate_component() {
            return Err(e);
        }
        match self.component {
            Component::Nand | Component::And | Component::Or | Component::Xor => {
                let i0 = self.inputs[0];
                let i1 = self.inputs[1];
                let o0 = self.outputs[0];
                if i0 >= wires.len() {
                    return Err(ComponentError::MissingWireError(i0));
                }
                if i1 >= wires.len() {
                    return Err(ComponentError::MissingWireError(i1));
                }
                if o0 >= wires.len() {
                    return Err(ComponentError::MissingWireError(o0));
                }
                let out = eval_gate2(self.component, wires[i0], wires[i1]);
                wires.set(o0, out);
                Ok(None)
            },
            Component::Not => {
                let i0 = self.inputs[0];
                let o0 = self.outputs[0];
                if i0 >= wires.len() {
                    return Err(ComponentError::MissingWireError(i0));
                }
                if o0 >= wires.len() {
                    return Err(ComponentError::MissingWireError(o0));
                }
                let a = wires[i0];
                let out = match a {
                    SignalState::High => SignalState::Low,
                    SignalState::Low => SignalState::High,
                    _ => SignalState::NotConnected,
                };
                wires.set(o0, out);
                Ok(None)
            },
            Component::HighPin => {
                let o0 = self.outputs[0];
                if o0 >= wires.len() {
                    return Err(ComponentError::MissingWireError(o0));
                }
                wires.set(o0, SignalState::High);
                Ok(None)
            },
            Component::LowPin => {
                let o0 = self.outputs[0];
                if o0 >= wires.len() {
                    return Err(ComponentError::MissingWireError(o0));
                }
                wires.set(o0, SignalState::Low);
                Ok(None)
            },
            Component::Output => {
                let i0 = self.inputs[0];
                if i0 >= wires.len() {
                    return Err(ComponentError::MissingWireError(i0));
                }
                Ok(Some(wires[i0]))
            },
            Component::Clock(off_ticks, on_ticks) => {
                let o0 = self.outputs[0];
                if o0 >= wires.len() {
                    return Err(ComponentError::MissingWireError(o0));
                }
                let out = clock_value(off_ticks, on_ticks, tick);
                wires.set(o0, out);
                Ok(None)
            },
            Component::Led => {
                let i0 = self.inputs[0];
                if i0 >= wires.len() {
                    return Err(ComponentError::MissingWireError(i0));
                }
                match wires[i0] {
                    SignalState::High => self.state = ComponentState::Led(true),
                    SignalState::Low => self.state = ComponentState::Led(false),
                    SignalState::NotConnected => self.state = ComponentState::Empty,
                }
                Ok(None)
            },
            Component::Pin(idx) => {
                let mut st = ComponentState::Empty;
                core::mem::swap(&mut st, &mut self.state);
                match st {
                    ComponentState::Pins(mut p) => {
                        if idx >= p.len() {
                            self.state = ComponentState::Pins(p);
                            return Err(ComponentError::InvalidState);
                        }
                        if self.inputs.len() == 1 {
                            let i0 = self.inputs[0];
                            if i0 >= wires.len() {
                                self.state = ComponentState::Pins(p);
                                return Err(ComponentError::MissingWireError(i0));
                            }
                            let v = wires[i0];
                            p.set(idx, v);
                            self.state = ComponentState::Pins(p);
                            Ok(None)
                        } else {
                            let o0 = self.outputs[0];
                            if o0 >= wires.len() {
                                self.state = ComponentState::Pins(p);
                                return Err(ComponentError::MissingWireError(o0));
                            }
                            let v = p[idx];
                            self.state = ComponentState::Pins(p);
                            wires.set(o0, v);
                            Ok(None)
                        }
                    },
                    other => {
                        self.state = other;
                        Ok(None)
                    },
                }
            },
            Component::EmbeddedCircuit => Ok(None),
        }
    }
}

impl Signal {
    /// A fresh wire: floating, with no subscribers yet.
    pub fn new() -> (r: Self)
        ensures
            r@ == (SignalV { state: SignalState::NotConnected, subscribers: Seq::<usize>::empty() }),
    {
        Self { state: SignalState::NotConnected, subscribers: Vec::new() }
    }
}

} // verus!
