use logicsim::circuit::{Circuit, ComponentReference, WireReference};
use logicsim::component::{
    Component, ComponentError, ComponentInstance, ComponentState, Side, SignalState,
};
use logicsim::sim::{Observation, Sim};

fn gate_out(gate: Component, a: SignalState, b: SignalState) -> SignalState {
    let mut ci = ComponentInstance::new(gate);
    ci.add_input(0);
    ci.add_input(1);
    ci.add_output(2);
    let mut wires = vec![a, b, SignalState::NotConnected];
    ci.exec(&mut wires, 0).unwrap();
    wires[2]
}

fn not_out(a: SignalState) -> SignalState {
    let mut ci = ComponentInstance::new(Component::Not);
    ci.add_input(0);
    ci.add_output(1);
    let mut wires = vec![a, SignalState::NotConnected];
    ci.exec(&mut wires, 0).unwrap();
    wires[1]
}

fn check_gate(gate: Component, lhs: Component, rhs: Component, expected: ComponentState) {
    let mut c = Circuit::new();
    let g = c.add_component(gate);
    let l = c.add_component(lhs);
    let r = c.add_component(rhs);
    let led = c.add_component(Component::Led);
    let lo = c.add_output(l).unwrap();
    let ro = c.add_output(r).unwrap();
    c.add_input(g, lo).unwrap();
    c.add_input(g, ro).unwrap();
    let go = c.add_output(g).unwrap();
    c.add_input(led, go).unwrap();
    let mut sim = Sim::new(c);
    sim.step(0).unwrap();
    assert_eq!(sim.get_state(led).unwrap(), &expected);
}

#[test]
fn nand_test() {
    check_gate(
        Component::Nand,
        Component::HighPin,
        Component::HighPin,
        ComponentState::Led(false),
    );
}

#[test]
fn and_test() {
    check_gate(
        Component::And,
        Component::HighPin,
        Component::HighPin,
        ComponentState::Led(true),
    );
}

#[test]
fn or_test() {
    check_gate(
        Component::Or,
        Component::HighPin,
        Component::LowPin,
        ComponentState::Led(true),
    );
}

#[test]
fn xor_test() {
    check_gate(
        Component::Xor,
        Component::HighPin,
        Component::HighPin,
        ComponentState::Led(false),
    );
}

#[test]
fn truth_tables_two_input_gates() {
    let (high, low) = (SignalState::High, SignalState::Low);
    let cases: [(SignalState, SignalState); 4] = [(high, high), (high, low), (low, high), (low, low)];
    let nand_expected = [low, high, high, high];
    let and_expected = [high, low, low, low];
    let or_expected = [high, high, high, low];
    let xor_expected = [low, high, high, low];
    for i in 0..4 {
        let (a, b) = cases[i];
        assert_eq!(gate_out(Component::Nand, a, b), nand_expected[i]);
        assert_eq!(gate_out(Component::And, a, b), and_expected[i]);
        assert_eq!(gate_out(Component::Or, a, b), or_expected[i]);
        assert_eq!(gate_out(Component::Xor, a, b), xor_expected[i]);
    }
}

#[test]
fn not_connected_propagates_through_gates() {
    let nc = SignalState::NotConnected;
    let gates = [Component::Nand, Component::And, Component::Or, Component::Xor];
    for g in gates {
        assert_eq!(gate_out(g, nc, SignalState::High), nc);
        assert_eq!(gate_out(g, SignalState::Low, nc), nc);
        assert_eq!(gate_out(g, nc, nc), nc);
    }
}

#[test]
fn not_gate_truth_table() {
    assert_eq!(not_out(SignalState::High), SignalState::Low);
    assert_eq!(not_out(SignalState::Low), SignalState::High);
    assert_eq!(not_out(SignalState::NotConnected), SignalState::NotConnected);
}

#[test]
fn clock_alternates_each_tick() {
    for tick in 0..6 {
        let mut ci = ComponentInstance::new(Component::Clock(1, 1));
        ci.add_output(0);
        let mut wires = vec![SignalState::NotConnected];
        ci.exec(&mut wires, tick).unwrap();
        let expected = if tick % 2 == 0 { SignalState::High } else { SignalState::Low };
        assert_eq!(wires[0], expected);
    }
}

#[test]
fn clock_respects_off_and_on_ticks() {
    // Clock(2, 3): High for the first 3 ticks of each period of 5.
    for tick in 0..10 {
        let mut ci = ComponentInstance::new(Component::Clock(2, 3));
        ci.add_output(0);
        let mut wires = vec![SignalState::NotConnected];
        ci.exec(&mut wires, tick).unwrap();
        let expected = if tick % 5 < 3 { SignalState::High } else { SignalState::Low };
        assert_eq!(wires[0], expected);
    }
}

#[test]
fn clock_with_zero_period_drives_low() {
    let mut ci = ComponentInstance::new(Component::Clock(0, 0));
    ci.add_output(0);
    let mut wires = vec![SignalState::NotConnected];
    ci.exec(&mut wires, 7).unwrap();
    assert_eq!(wires[0], SignalState::Low);
}

#[test]
fn propagation_reaches_downstream_in_one_step() {
    // HighPin -> Not -> Not -> Led: the change propagates through the whole
    // chain within a single step.
    let mut c = Circuit::new();
    let pin = c.add_component(Component::HighPin);
    let not1 = c.add_component(Component::Not);
    let not2 = c.add_component(Component::Not);
    let led = c.add_component(Component::Led);
    let w0 = c.add_output(pin).unwrap();
    c.add_input(not1, w0).unwrap();
    let w1 = c.add_output(not1).unwrap();
    c.add_input(not2, w1).unwrap();
    let w2 = c.add_output(not2).unwrap();
    c.add_input(led, w2).unwrap();
    let mut sim = Sim::new(c);
    sim.step(0).unwrap();
    // Not(Not(High)) == High
    assert_eq!(sim.get_state(led).unwrap(), &ComponentState::Led(true));
}

#[test]
fn validate_rejects_wrong_input_counts() {
    for n in [0usize, 1, 3] {
        let mut ci = ComponentInstance::new(Component::And);
        for w in 0..n {
            ci.add_input(w);
        }
        ci.add_output(10);
        assert_eq!(
            ci.validate_component(),
            Err(ComponentError::WrongConnectionCount(Side::Input, 2, n))
        );
    }
}

#[test]
fn validate_rejects_wrong_output_counts() {
    let mut ci = ComponentInstance::new(Component::Nand);
    ci.add_input(0);
    ci.add_input(1);
    assert_eq!(
        ci.validate_component(),
        Err(ComponentError::WrongConnectionCount(Side::Output, 1, 0))
    );
    let mut driver = ComponentInstance::new(Component::HighPin);
    driver.add_output(0);
    driver.add_output(1);
    assert_eq!(
        driver.validate_component(),
        Err(ComponentError::WrongConnectionCount(Side::Output, 1, 2))
    );
}

#[test]
fn validate_accepts_correct_arities() {
    let mut gate = ComponentInstance::new(Component::Xor);
    gate.add_input(0);
    gate.add_input(1);
    gate.add_output(2);
    assert_eq!(gate.validate_component(), Ok(()));
    let mut pin = ComponentInstance::new(Component::Pin(0));
    pin.add_input(0);
    assert_eq!(pin.validate_component(), Ok(()));
    let mut pin2 = ComponentInstance::new(Component::Pin(1));
    pin2.add_input(0);
    pin2.add_output(1);
    assert_eq!(
        pin2.validate_component(),
        Err(ComponentError::WrongConnectionCount(Side::Input, 1, 2))
    );
}

#[test]
fn embedded_circuit_requires_circuit_state() {
    let ci = ComponentInstance::new(Component::EmbeddedCircuit);
    assert_eq!(ci.validate_component(), Err(ComponentError::InvalidState));
    let mut ci2 = ComponentInstance::new(Component::EmbeddedCircuit);
    ci2.set_state(ComponentState::EmbeddedCircuit(Circuit::new()));
    assert_eq!(ci2.validate_component(), Ok(()));
}

#[test]
fn nand_clock_scenario() {
    // HighPin -> Nand input a; Clock(1,1) -> Nand input b; Nand -> Led.
    // Tick 0: Nand(High, High) == Low, the Led is off.
    // Tick 1: Nand(High, Low) == High, the Led is on.
    let mut c = Circuit::new();
    let nand = c.add_component(Component::Nand);
    let input1 = c.add_component(Component::HighPin);
    let input2 = c.add_component(Component::Clock(1, 1));
    let led = c.add_component(Component::Led);
    let i = c.add_output(input1).unwrap();
    let i2 = c.add_output(input2).unwrap();
    c.add_input(nand, i).unwrap();
    c.add_input(nand, i2).unwrap();
    let o = c.add_output(nand).unwrap();
    c.add_input(led, o).unwrap();
    let mut sim = Sim::new(c);
    sim.step(0).unwrap();
    assert_eq!(sim.get_state(led).unwrap(), &ComponentState::Led(false));
    sim.step(1).unwrap();
    assert_eq!(sim.get_state(led).unwrap(), &ComponentState::Led(true));
}

#[test]
fn high_and_low_pins_through_each_gate() {
    check_gate(
        Component::And,
        Component::HighPin,
        Component::LowPin,
        ComponentState::Led(false),
    );
    check_gate(
        Component::Or,
        Component::HighPin,
        Component::LowPin,
        ComponentState::Led(true),
    );
    check_gate(
        Component::Xor,
        Component::HighPin,
        Component::LowPin,
        ComponentState::Led(true),
    );
    // Nand(High, Low) == High per the truth table, so the Led reads on.
    check_gate(
        Component::Nand,
        Component::HighPin,
        Component::LowPin,
        ComponentState::Led(true),
    );
}

#[test]
fn output_component_reports_observations() {
    let mut c = Circuit::new();
    let pin = c.add_component(Component::HighPin);
    let out = c.add_component(Component::Output);
    let w = c.add_output(pin).unwrap();
    c.add_input(out, w).unwrap();
    let mut sim = Sim::new(c);
    sim.step(3).unwrap();
    assert_eq!(
        sim.observations,
        vec![Observation { tick: 3, value: SignalState::High }]
    );
}

#[test]
fn missing_component_errors() {
    let mut c = Circuit::new();
    assert_eq!(
        c.add_output(ComponentReference(7)),
        Err(ComponentError::MissingComponentError(7))
    );
    assert_eq!(
        c.add_input(ComponentReference(7), WireReference(0)),
        Err(ComponentError::MissingComponentError(7))
    );
    assert_eq!(
        c.set_state(ComponentReference(7), ComponentState::Empty),
        Err(ComponentError::MissingComponentError(7))
    );
    assert!(matches!(
        c.get_state(ComponentReference(7)),
        Err(ComponentError::MissingComponentError(7))
    ));
}

#[test]
fn missing_wire_error_leaves_the_circuit_unchanged() {
    let mut c = Circuit::new();
    let g = c.add_component(Component::And);
    assert_eq!(
        c.add_input(g, WireReference(9)),
        Err(ComponentError::MissingWireError(9))
    );
    // nothing was registered: the failed wiring can be fixed and retried
    assert!(c.components[0].inputs.is_empty());
    assert!(c.wires.is_empty());
}

#[test]
fn validate_rejects_a_driver_with_an_input() {
    for k in [Component::HighPin, Component::LowPin, Component::Clock(1, 1)] {
        let mut ci = ComponentInstance::new(k);
        ci.add_input(0);
        ci.add_output(1);
        assert_eq!(
            ci.validate_component(),
            Err(ComponentError::WrongConnectionCount(Side::Input, 0, 1))
        );
    }
}

#[test]
fn validate_rejects_a_sink_with_two_outputs() {
    for k in [Component::Output, Component::Led] {
        let mut ci = ComponentInstance::new(k);
        ci.add_input(0);
        ci.add_output(1);
        ci.add_output(2);
        assert_eq!(
            ci.validate_component(),
            Err(ComponentError::WrongConnectionCount(Side::Output, 1, 2))
        );
    }
    // a sink with one output, or none, is fine
    let mut led = ComponentInstance::new(Component::Led);
    led.add_input(0);
    led.add_output(1);
    assert_eq!(led.validate_component(), Ok(()));
}

#[test]
fn exec_rejects_out_of_range_wires() {
    let mut ci = ComponentInstance::new(Component::Not);
    ci.add_input(5);
    ci.add_output(0);
    let mut wires = vec![SignalState::High];
    assert_eq!(
        ci.exec(&mut wires, 0),
        Err(ComponentError::MissingWireError(5))
    );
}

#[test]
fn empty_state_is_recognized() {
    assert!(ComponentState::Empty.is_empty());
    assert!(!ComponentState::Led(false).is_empty());
}

#[test]
fn root_components_are_the_drivers() {
    assert!(Component::HighPin.is_root());
    assert!(Component::LowPin.is_root());
    assert!(Component::Clock(1, 1).is_root());
    assert!(!Component::Nand.is_root());
    assert!(!Component::Led.is_root());
    assert!(!Component::Pin(0).is_root());
}

#[test]
fn set_state_returns_previous_state() {
    let mut c = Circuit::new();
    let led = c.add_component(Component::Led);
    let prev = c.set_state(led, ComponentState::Led(true)).unwrap();
    assert_eq!(prev, ComponentState::Empty);
    let prev2 = c.set_state(led, ComponentState::Empty).unwrap();
    assert_eq!(prev2, ComponentState::Led(true));
    assert_eq!(c.get_state(led).unwrap(), &ComponentState::Empty);
}

#[test]
fn pin_copies_its_input_into_its_slot() {
    let mut ci = ComponentInstance::new(Component::Pin(1));
    ci.add_input(0);
    ci.set_state(ComponentState::Pins(vec![
        SignalState::NotConnected,
        SignalState::NotConnected,
    ]));
    let mut wires = vec![SignalState::High];
    ci.exec(&mut wires, 0).unwrap();
    assert_eq!(
        ci.get_state(),
        &ComponentState::Pins(vec![SignalState::NotConnected, SignalState::High])
    );
}

#[test]
fn pin_writes_its_slot_onto_its_output() {
    let mut ci = ComponentInstance::new(Component::Pin(0));
    ci.add_output(0);
    ci.set_state(ComponentState::Pins(vec![SignalState::Low]));
    let mut wires = vec![SignalState::NotConnected];
    ci.exec(&mut wires, 0).unwrap();
    assert_eq!(wires[0], SignalState::Low);
}

#[test]
fn pin_with_out_of_range_slot_is_invalid_state() {
    let mut ci = ComponentInstance::new(Component::Pin(2));
    ci.add_output(0);
    ci.set_state(ComponentState::Pins(vec![SignalState::Low]));
    let mut wires = vec![SignalState::NotConnected];
    assert_eq!(ci.exec(&mut wires, 0), Err(ComponentError::InvalidState));
}

#[test]
fn feedback_loop_does_not_settle() {
    // Two drivers and a Nand whose output wire is also one of its inputs:
    // once both wires are High, every evaluation of the Nand flips its own
    // input, so the step gives up instead of looping forever.
    let c = Circuit {
        components: vec![
            ComponentInstance {
                component: Component::HighPin,
                inputs: vec![],
                outputs: vec![0],
                state: ComponentState::Empty,
            },
            ComponentInstance {
                component: Component::HighPin,
                inputs: vec![],
                outputs: vec![1],
                state: ComponentState::Empty,
            },
            ComponentInstance {
                component: Component::Nand,
                inputs: vec![0, 1],
                outputs: vec![1],
                state: ComponentState::Empty,
            },
        ],
        wires: vec![
            logicsim::component::Signal { state: SignalState::NotConnected, subscribers: vec![2] },
            logicsim::component::Signal { state: SignalState::NotConnected, subscribers: vec![2] },
        ],
    };
    let mut sim = Sim::new(c);
    assert_eq!(sim.step(0), Err(ComponentError::DidNotSettle));
}

#[test]
fn step_reports_missing_component_in_the_queue() {
    let c = Circuit {
        components: vec![],
        wires: vec![],
    };
    let mut sim = Sim::new(c);
    sim.queue.push(logicsim::sim::SimEvent { time: 0, component: 4 });
    assert_eq!(sim.step(0), Err(ComponentError::MissingComponentError(4)));
}
