use logicsim::circuit::Circuit;
use logicsim::codec::{decode_circuit, encode_circuit};
use logicsim::component::{Component, ComponentState, SignalState};
use logicsim::sim::Sim;

fn sample_circuit() -> Circuit {
    let mut c = Circuit::new();
    let nand = c.add_component(Component::Nand);
    let pin = c.add_component(Component::HighPin);
    let clock = c.add_component(Component::Clock(1, 2));
    let led = c.add_component(Component::Led);
    let out = c.add_component(Component::Output);
    let w0 = c.add_output(pin).unwrap();
    let w1 = c.add_output(clock).unwrap();
    c.add_input(nand, w0).unwrap();
    c.add_input(nand, w1).unwrap();
    let w2 = c.add_output(nand).unwrap();
    c.add_input(led, w2).unwrap();
    c.add_input(out, w2).unwrap();
    c
}

#[test]
fn round_trip_preserves_a_fresh_circuit() {
    let c = sample_circuit();
    let words = encode_circuit(&c);
    let decoded = decode_circuit(&words).unwrap();
    // nothing was simulated, so every wire still has the default value and
    // the decoded circuit is identical
    assert_eq!(decoded, c);
}

#[test]
fn round_trip_resets_live_wire_values() {
    let c = sample_circuit();
    let mut sim = Sim::new(c);
    sim.step(0).unwrap();
    // after one step some wires carry High/Low
    assert!(sim.circuit.wires.iter().any(|w| w.state != SignalState::NotConnected));
    let words = encode_circuit(&sim.circuit);
    let decoded = decode_circuit(&words).unwrap();
    // components and subscriber topology survive; wire values reset
    assert_eq!(decoded.components, sim.circuit.components);
    assert_eq!(decoded.wires.len(), sim.circuit.wires.len());
    for (d, o) in decoded.wires.iter().zip(sim.circuit.wires.iter()) {
        assert_eq!(d.state, SignalState::NotConnected);
        assert_eq!(d.subscribers, o.subscribers);
    }
}

#[test]
fn round_trip_preserves_auxiliary_state() {
    let mut c = Circuit::new();
    let led = c.add_component(Component::Led);
    let pin = c.add_component(Component::Pin(1));
    c.set_state(led, ComponentState::Led(true)).unwrap();
    c.set_state(
        pin,
        ComponentState::Pins(vec![SignalState::High, SignalState::Low]),
    )
    .unwrap();
    let words = encode_circuit(&c);
    let decoded = decode_circuit(&words).unwrap();
    assert_eq!(decoded, c);
}

#[test]
fn round_trip_recurses_through_embedded_circuits() {
    let mut inner = Circuit::new();
    let ipin = inner.add_component(Component::Pin(0));
    inner.add_output(ipin).unwrap();
    let mut c = Circuit::new();
    let emb = c.add_component(Component::EmbeddedCircuit);
    c.set_state(emb, ComponentState::EmbeddedCircuit(inner)).unwrap();
    let words = encode_circuit(&c);
    let decoded = decode_circuit(&words).unwrap();
    assert_eq!(decoded, c);
}

#[test]
fn decode_rejects_garbage() {
    assert!(decode_circuit(&vec![99u64]).is_none());
    // one component announced, none present
    assert!(decode_circuit(&vec![1u64]).is_none());
    // trailing words after a well-formed circuit
    let c = sample_circuit();
    let mut words = encode_circuit(&c);
    words.push(0);
    assert!(decode_circuit(&words).is_none());
}

#[test]
fn decode_of_empty_input_fails_but_empty_circuit_round_trips() {
    assert!(decode_circuit(&Vec::new()).is_none());
    let c = Circuit::new();
    let words = encode_circuit(&c);
    let decoded = decode_circuit(&words).unwrap();
    assert_eq!(decoded, c);
}
