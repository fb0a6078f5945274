//! A discrete-event simulator for digital logic.
//!
//! A netlist of wires and components is assembled with a [`CircuitBuilder`],
//! frozen into a [`Circuit`], and then driven by alternating [`Circuit::tick`]
//! and [`Circuit::propagate`]. Every wire carries one of four [`Voltage`]s;
//! a wire with several drivers resolves them by [`Voltage::pull`].
pub mod circuit;
pub mod components;
pub mod inline;
pub mod test_utils;
pub mod voltage;

pub use circuit::builder::CircuitBuilder;
pub use circuit::{
    Circuit, Component, ComponentInterface, ComponentRef, WireRef, WireState,
};
pub use components::kind::{AnyComponent, ComponentKind};
pub use components::{arithmetic, clocks, gates, latches, plexers};
pub use voltage::{Voltage, VoltageInput};
