//! The circuit graph: an arena of component instances and an arena of
//! wires, cross-referenced by index.

use vstd::prelude::*;

use crate::component::{
    spec_validate, Component, ComponentError, ComponentInstance, ComponentInstanceV,
    ComponentState, ComponentStateV, Signal, SignalState, SignalV,
};

verus! {

broadcast use crate::component::lemma_circuit_view;

/// The circuit owns every component instance and every wire; components
/// name wires, and wires name their subscriber components, purely by index
/// into these two arenas.
#[derive(Debug, PartialEq, Eq)]
pub struct Circuit {
    pub components: Vec<ComponentInstance>,
    pub wires: Vec<Signal>,
}

/// Mathematical mirror of `Circuit`.
pub struct CircuitV {
    pub components: Seq<ComponentInstanceV>,
    pub wires: Seq<SignalV>,
}

/// Validation of the components of a circuit from index `i` on: the first
/// failing component's error, in index order.
pub open spec fn spec_validate_components(cv: CircuitV, i: int) -> Result<(), ComponentError>
    decreases cv, 1nat, cv.components.len() - i,
{
    if i < 0 || i >= cv.components.len() {
        Ok(())
    } else {
        match spec_validate(cv.components[i]) {
            Err(e) => Err(e),
            Ok(_) => spec_validate_components(cv, i + 1),
        }
    }
}

/// A circuit is valid when every component it owns passes its kind's arity
/// rule; the error reported is the first failing component's, in index
/// order.
pub open spec fn spec_validate_circuit(cv: CircuitV) -> Result<(), ComponentError>
    decreases cv, 2nat, 0nat,
{
    spec_validate_components(cv, 0)
}

/// If every component before `i` validates, validation of the whole list
/// is validation from `i` on.
pub proof fn lemma_validate_components_prefix(cv: CircuitV, i: int)
    requires
        0 <= i <= cv.components.len(),
        forall|j: int| 0 <= j < i ==> spec_validate(#[trigger] cv.components[j]) is Ok,
    ensures
        spec_validate_components(cv, 0) == spec_validate_components(cv, i),
    decreases i,
{
    if i > 0 {
        lemma_validate_components_prefix(cv, i - 1);
    }
}

/// An opaque handle to one component of a circuit; pass it back into the
/// circuit's methods to read or mutate that component.
#[derive(Debug, Clone, Copy, PartialEq, Eq, Structural)]
pub struct ComponentReference(pub usize);

/// An opaque handle to one wire of a circuit.
#[derive(Debug, Clone, Copy, PartialEq, Eq, Structural)]
pub struct WireReference(pub usize);

impl Circuit {
    /// An empty circuit: no components, no wires.
    pub fn new() -> (r: Self)
        ensures
            r@.components == Seq::<ComponentInstanceV>::empty(),
            r@.wires == Seq::<SignalV>::empty(),
    {
        let r = Self { components: Vec::new(), wires: Vec::new() };
        proof {
            assert(r@.components =~= Seq::<ComponentInstanceV>::empty());
            assert(r@.wires =~= Seq::<SignalV>::empty());
        }
        r
    }

    /// Add a fresh, unconnected component of the given kind; always
    /// succeeds and returns its handle.
    pub fn add_component(&mut self, component: Component) -> (r: ComponentReference)
        ensures
            r.0 == old(self)@.components.len(),
            final(self)@.components == old(self)@.components.push(
                ComponentInstanceV {
                    component,
                    inputs: Seq::empty(),
                    outputs: Seq::empty(),
                    state: ComponentStateV::Empty,
                },
            ),
            final(self)@.wires == old(self)@.wires,
    {
        let instance = ComponentInstance::new(component);
        let id = self.components.len();
        self.components.push(instance);
        proof {
            assert(self@.components =~= old(self)@.components.push(instance@));
            assert(self@.wires =~= old(self)@.wires);
        }
        ComponentReference(id)
    }

    /// Allocate a fresh wire, owned by this circuit, initialized to
    /// `NotConnected` with no subscribers, and register it as the next
    /// output of the referenced component.
    pub fn add_output(&mut self, r: ComponentReference) -> (res: Result<
        WireReference,
        ComponentError,
    >)
        ensures
            r.0 < old(self)@.components.len() ==> {
                &&& res == Ok::<WireReference, ComponentError>(
                    WireReference(old(self).wires.len()),
                )
                &&& final(self)@.components == old(self)@.components.update(
                    r.0 as int,
                    (ComponentInstanceV {
                        outputs: old(self)@.components[r.0 as int].outputs.push(
                            old(self).wires.len(),
                        ),
                        ..old(self)@.components[r.0 as int]
                    }),
                )
                &&& final(self)@.wires == old(self)@.wires.push(
                    (SignalV {
                        state: SignalState::NotConnected,
                        subscribers: Seq::<usize>::empty(),
                    }),
                )
            },
            r.0 >= old(self)@.components.len() ==> res == Err::<WireReference, ComponentError>(
                ComponentError::MissingComponentError(r.0),
            ) && *final(self) == *old(self),
    {
        if r.0 >= self.components.len() {
            return Err(ComponentError::MissingComponentError(r.0));
        }
        let wire = self.wires.len();
        let mut inst = self.components.remove(r.0);
        inst.add_output(wire);
        self.components.insert(r.0, inst);
        self.wires.push(Signal::new());
        proof {
            assert(self.components@ =~= old(self).components@.update(
                r.0 as int,
                self.components@[r.0 as int],
            ));
            assert(self@.components =~= old(self)@.components.update(
                r.0 as int,
                (ComponentInstanceV {
                    outputs: old(self)@.components[r.0 as int].outputs.push(wire),
                    ..old(self)@.components[r.0 as int]
                }),
            ));
            assert(self@.wires =~= old(self)@.wires.push(
                (SignalV { state: SignalState::NotConnected, subscribers: Seq::<usize>::empty() }),
            ));
        }
        Ok(WireReference(wire))
    }

    /// Register the wire as the next input of the referenced component and
    /// subscribe the component to the wire, so a change of the wire's value
    /// re-evaluates the component. Both identifiers are looked up first: a
    /// missing component or wire leaves the circuit unchanged.
    pub fn add_input(&mut self, r: ComponentReference, wire: WireReference) -> (res: Result<
        (),
        ComponentError,
    >)
        ensures
            r.0 >= old(self)@.components.len() ==> res == Err::<(), ComponentError>(
                ComponentError::MissingComponentError(r.0),
            ) && *final(self) == *old(self),
            r.0 < old(self)@.components.len() && wire.0 >= old(self)@.wires.len() ==> res == Err::<
                (),
                ComponentError,
            >(ComponentError::MissingWireError(wire.0)) && *final(self) == *old(self),
            r.0 < old(self)@.components.len() && wire.0 < old(self)@.wires.len() ==> {
                &&& res == Ok::<(), ComponentError>(())
                &&& final(self)@.components == old(self)@.components.update(
                    r.0 as int,
                    (ComponentInstanceV {
                        inputs: old(self)@.components[r.0 as int].inputs.push(wire.0),
                        ..old(self)@.components[r.0 as int]
                    }),
                )
                &&& final(self)@.wires == old(self)@.wires.update(
                    wire.0 as int,
                    (SignalV {
                        state: old(self)@.wires[wire.0 as int].state,
                        subscribers: old(self)@.wires[wire.0 as int].subscribers.push(r.0),
                    }),
                )
            },
    {
        if r.0 >= self.components.len() {
            return Err(ComponentError::MissingComponentError(r.0));
        }
        if wire.0 >= self.wires.len() {
            return Err(ComponentError::MissingWireError(wire.0));
        }
        let mut inst = self.components.remove(r.0);
        inst.add_input(wire.0);
        self.components.insert(r.0, inst);
        proof {
            assert(self.components@ =~= old(self).components@.update(
                r.0 as int,
                self.components@[r.0 as int],
            ));
            assert(self@.components =~= old(self)@.components.update(
                r.0 as int,
                (ComponentInstanceV {
                    inputs: old(self)@.components[r.0 as int].inputs.push(wire.0),
                    ..old(self)@.components[r.0 as int]
                }),
            ));
        }
        let ghost mid = *self;
        let mut sig = self.wires.remove(wire.0);
        sig.subscribers.push(r.0);
        self.wires.insert(wire.0, sig);
        proof {
            assert(self.wires@ =~= mid.wires@.update(
                wire.0 as int,
                self.wires@[wire.0 as int],
            ));
            assert(self@.wires =~= old(self)@.wires.update(
                wire.0 as int,
                (SignalV {
                    state: old(self)@.wires[wire.0 as int].state,
                    subscribers: old(self)@.wires[wire.0 as int].subscribers.push(r.0),
                }),
            ));
            assert(self@.components =~= mid@.components);
        }
        Ok(())
    }

    /// Replace the referenced component's auxiliary state, returning the
    /// previous state.
    pub fn set_state(&mut self, r: ComponentReference, state: ComponentState) -> (res: Result<
        ComponentState,
        ComponentError,
    >)
        ensures
            r.0 >= old(self)@.components.len() ==> res == Err::<ComponentState, ComponentError>(
                ComponentError::MissingComponentError(r.0),
            ) && *final(self) == *old(self),
            r.0 < old(self)@.components.len() ==> {
                &&& res is Ok
                &&& res->Ok_0@ == old(self)@.components[r.0 as int].state
                &&& final(self)@.components == old(self)@.components.update(
                    r.0 as int,
                    (ComponentInstanceV { state: state@, ..old(self)@.components[r.0 as int] }),
                )
                &&& final(self)@.wires == old(self)@.wires
            },
    {
        if r.0 >= self.components.len() {
            return Err(ComponentError::MissingComponentError(r.0));
        }
        let mut inst = self.components.remove(r.0);
        let prev = inst.set_state(state);
        self.components.insert(r.0, inst);
        proof {
            assert(self.components@ =~= old(self).components@.update(
                r.0 as int,
                self.components@[r.0 as int],
            ));
            assert(self@.components =~= old(self)@.components.update(
                r.0 as int,
                (ComponentInstanceV { state: state@, ..old(self)@.components[r.0 as int] }),
            ));
            assert(self@.wires =~= old(self)@.wires);
        }
        Ok(prev)
    }

    /// Read the referenced component's auxiliary state.
    pub fn get_state(&self, r: ComponentReference) -> (res: Result<&ComponentState, ComponentError>)
        ensures
            r.0 < self@.components.len() ==> res is Ok && res->Ok_0@ == self@.components[r.0 as int].state,
            r.0 >= self@.components.len() ==> res == Err::<&ComponentState, ComponentError>(
                ComponentError::MissingComponentError(r.0),
            ),
    {
        if r.0 >= self.components.len() {
            return Err(ComponentError::MissingComponentError(r.0));
        }
        let inst = &self.components[r.0];
        Ok(inst.get_state())
    }

    /// Validate every component this circuit owns, in index order,
    /// returning the first failure.
    pub fn validate(&self) -> (r: Result<(), ComponentError>)
        ensures
            r == spec_validate_circuit(self@),
        decreases *self, 2nat, 0nat,
    {
        let n = self.components.len();
        let mut i: usize = 0;
        while i < n
            invariant
                0 <= i <= n,
                n == self.components.len(),
                forall|j: int| 0 <= j < i ==> spec_validate(#[trigger] self@.components[j]) is Ok,
            decreases n - i,
        {
            let r = self.components[i].validate_component();
            if let Err(e) = r {
                proof {
                    lemma_validate_components_prefix(self@, i as int);
                }
                return Err(e);
            }
            i += 1;
        }
        proof {
            lemma_validate_components_prefix(self@, n as int);
        }
        Ok(())
    }
}

} // verus!
