//! A discrete-event simulator for digital logic circuits.
//!
//! A circuit is a graph of components (gates, pins, clocks, sinks) connected
//! by wires; the simulator propagates signal changes tick by tick until the
//! circuit settles.

pub mod circuit;
pub mod codec;
pub mod sim;
pub mod component;
