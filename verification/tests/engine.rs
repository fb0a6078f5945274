use logic_sim::clocks::{Clock, ControlledClock};
use logic_sim::gates::{AndGate, Buffer, Constant, ControlledBuffer, NotGate, OrGate, XorGate};
use logic_sim::latches::SrNorLatch;
use logic_sim::test_utils::simulate_component_internal;
use logic_sim::Voltage::{Error, Floating, High, Low};
use logic_sim::{
    Circuit, CircuitBuilder, Component, ComponentInterface, ComponentKind, ComponentRef, Voltage,
    VoltageInput, WireRef, WireState,
};

fn strong(voltage: Voltage) -> VoltageInput {
    VoltageInput { voltage, resistor: false }
}

fn weak(voltage: Voltage) -> VoltageInput {
    VoltageInput { voltage, resistor: true }
}

fn settled(voltage: Voltage) -> WireState {
    WireState { voltage, unstable: false }
}

#[test]
fn wires_start_low_or_floating() {
    let mut builder = CircuitBuilder::new();
    let driven = builder.add_wire();
    let idle = builder.add_wire();
    builder.add_component(Constant::new(strong(Voltage::Low)), &[], &[driven]);
    let mut circuit = builder.build();
    assert_eq!(circuit.wire(driven), settled(Voltage::Low));
    assert_eq!(circuit.wire(idle), settled(Voltage::Floating));
    assert!(circuit.propagate(1));
    assert_eq!(circuit.wire(driven), settled(Voltage::Low));
    assert_eq!(circuit.wire(idle), settled(Voltage::Floating));
}

#[test]
fn a_changed_slot_makes_its_wire_unstable_until_resolved() {
    let mut builder = CircuitBuilder::new();
    let wire = builder.add_wire();
    builder.add_component(Constant::new(strong(Voltage::High)), &[], &[wire]);
    let mut circuit = builder.build();
    assert_eq!(circuit.wire(wire), WireState { voltage: Voltage::Low, unstable: true });
    assert!(!circuit.propagate(0));
    assert_eq!(circuit.wire(wire), WireState { voltage: Voltage::Low, unstable: true });
    assert!(circuit.propagate(1));
    assert_eq!(circuit.wire(wire), settled(Voltage::High));
}

#[test]
fn counters() {
    let mut builder = CircuitBuilder::new();
    let wire = builder.add_wire();
    builder.add_component(Constant::new(strong(Voltage::High)), &[], &[wire]);
    let mut circuit = builder.build();
    assert_eq!(circuit.iteration_count(), 0);
    assert_eq!(circuit.tick_count(), 0);
    assert!(circuit.propagate(10));
    assert_eq!(circuit.iteration_count(), 1);
    assert!(circuit.propagate(10));
    assert_eq!(circuit.iteration_count(), 2);
    circuit.tick();
    assert_eq!(circuit.iteration_count(), 0);
    assert_eq!(circuit.tick_count(), 1);
}

#[test]
fn strong_drivers_beat_resistors() {
    let mut builder = CircuitBuilder::new();
    let pulled = builder.add_wire();
    let both = builder.add_wire();
    let clash = builder.add_wire();
    let released = builder.add_wire();
    builder.add_component(Constant::new(weak(Voltage::High)), &[], &[pulled]);
    builder.add_component(Constant::new(weak(Voltage::High)), &[], &[both]);
    builder.add_component(Constant::new(strong(Voltage::Low)), &[], &[both]);
    builder.add_component(Constant::new(weak(Voltage::High)), &[], &[clash]);
    builder.add_component(Constant::new(weak(Voltage::Low)), &[], &[clash]);
    builder.add_component(Constant::new(weak(Voltage::Low)), &[], &[released]);
    builder.add_component(Constant::new(strong(Voltage::Floating)), &[], &[released]);
    let mut circuit = builder.build();
    assert!(circuit.propagate(10));
    assert_eq!(circuit.wire(pulled), settled(Voltage::High));
    assert_eq!(circuit.wire(both), settled(Voltage::Low));
    assert_eq!(circuit.wire(clash), settled(Voltage::Error));
    assert_eq!(circuit.wire(released), settled(Voltage::Low));
}

#[test]
fn a_settled_circuit_has_no_unstable_wire() {
    let mut builder = CircuitBuilder::new();
    let mut wires = Vec::new();
    for _ in 0..6 {
        wires.push(builder.add_wire());
    }
    builder.add_component(Constant::new(strong(Voltage::High)), &[], &[wires[0]]);
    builder.add_component(Constant::new(strong(Voltage::Low)), &[], &[wires[1]]);
    builder.add_component(NotGate::default(), &[wires[0]], &[wires[2]]);
    builder.add_component(XorGate::default(), &[wires[0], wires[2]], &[wires[3]]);
    builder.add_component(AndGate::default(), &[wires[3], wires[1]], &[wires[4]]);
    builder.add_component(OrGate::default(), &[wires[4], wires[3]], &[wires[5]]);
    let mut circuit = builder.build();
    assert!(circuit.propagate(10));
    let expected = [
        Voltage::High,
        Voltage::Low,
        Voltage::Low,
        Voltage::High,
        Voltage::Low,
        Voltage::High,
    ];
    for (wire, voltage) in wires.iter().zip(expected) {
        assert_eq!(circuit.wire(*wire), settled(voltage));
    }
    assert!(circuit.propagate(10));
    for (wire, voltage) in wires.iter().zip(expected) {
        assert_eq!(circuit.wire(*wire), settled(voltage));
    }
}

#[test]
fn a_budget_that_is_too_small_leaves_work() {
    let mut builder = CircuitBuilder::new();
    let a = builder.add_wire();
    let b = builder.add_wire();
    let c = builder.add_wire();
    builder.add_component(Constant::new(strong(Voltage::High)), &[], &[a]);
    builder.add_component(Buffer::default(), &[a], &[b]);
    builder.add_component(Buffer::default(), &[b], &[c]);
    let mut circuit = builder.build();
    assert!(!circuit.propagate(1));
    assert!(circuit.propagate(10));
    assert_eq!(circuit.wire(c), settled(Voltage::High));
}

#[test]
fn wires_with_the_same_readers_share_a_set() {
    let mut builder = CircuitBuilder::new();
    let a = builder.add_wire();
    let b = builder.add_wire();
    let c = builder.add_wire();
    let d = builder.add_wire();
    let out = builder.add_wire();
    builder.add_component(AndGate::default(), &[a, b], &[out]);
    builder.add_component(OrGate::default(), &[b, a], &[out]);
    builder.add_component(Buffer::default(), &[c], &[d]);
    let circuit = builder.build();
    assert!(circuit.reader_set(a).is_some());
    assert_eq!(circuit.reader_set(a), circuit.reader_set(b));
    assert_ne!(circuit.reader_set(a), circuit.reader_set(c));
    assert_eq!(circuit.reader_set(a), Some(0));
    assert_eq!(circuit.reader_set(c), Some(1));
    assert_eq!(circuit.reader_set(out), None);
    assert_eq!(circuit.reader_set(d), None);
}

#[test]
fn an_output_without_a_wire_is_discarded() {
    let mut builder = CircuitBuilder::new();
    let power = builder.add_wire();
    builder.add_component(Constant::new(strong(Voltage::High)), &[], &[power]);
    builder.add_component(Buffer::default(), &[power], &[WireRef::none()]);
    builder.add_component(Constant::new(strong(Voltage::Low)), &[], &[WireRef::none()]);
    let mut circuit = builder.build();
    assert!(circuit.propagate(10));
    assert_eq!(circuit.wire(power), settled(Voltage::High));
}

#[test]
fn a_constant_changes_at_the_next_tick() {
    let mut builder = CircuitBuilder::new();
    let wire = builder.add_wire();
    let inverted = builder.add_wire();
    let source = builder.add_component(Constant::new(strong(Voltage::High)), &[], &[wire]);
    builder.add_component(NotGate::default(), &[wire], &[inverted]);
    let mut circuit = builder.build();
    assert!(circuit.propagate(10));
    assert_eq!(circuit.wire(inverted), settled(Voltage::Low));

    assert_eq!(circuit.component_ref::<Constant>(source).get(), strong(Voltage::High));
    circuit.component_mut::<Constant>(source).set(strong(Voltage::Low));
    assert_eq!(circuit.component_ref::<Constant>(source).get(), strong(Voltage::Low));
    assert!(circuit.propagate(10));
    assert_eq!(circuit.wire(wire), settled(Voltage::High));

    circuit.tick();
    assert!(circuit.wire(wire).unstable);
    assert!(circuit.propagate(10));
    assert_eq!(circuit.wire(wire), settled(Voltage::Low));
    assert_eq!(circuit.wire(inverted), settled(Voltage::High));

    circuit.tick();
    assert!(!circuit.wire(wire).unstable);
    assert!(circuit.propagate(10));
    assert_eq!(circuit.wire(inverted), settled(Voltage::High));
}

#[test]
fn clock() {
    let mut builder = CircuitBuilder::new();
    let wire = builder.add_wire();
    builder.add_component(Clock::new(1, 1, 0), &[], &[wire]);
    let mut circuit = builder.build();
    assert!(circuit.propagate(10));
    assert_eq!(circuit.wire(wire), settled(Voltage::Low));
    for round in 0..6 {
        circuit.tick();
        assert!(circuit.propagate(10));
        let expected = if round % 2 == 0 { Voltage::High } else { Voltage::Low };
        assert_eq!(circuit.wire(wire), settled(expected));
    }
}

#[test]
fn clock_with_phase_and_uneven_period() {
    let mut builder = CircuitBuilder::new();
    let wire = builder.add_wire();
    let clock = builder.add_component(Clock::new(2, 1, 1), &[], &[wire]);
    let mut circuit = builder.build();
    assert!(circuit.propagate(10));
    // (tick + 1) mod 3 >= 2
    let expected = [true, false, false, true, false, false, true, false];
    for (i, high) in expected.iter().enumerate() {
        circuit.tick();
        assert!(circuit.propagate(10));
        assert_eq!(circuit.tick_count(), i as u64 + 1);
        assert_eq!(circuit.wire(wire), settled(Voltage::from(*high)));
        assert_eq!(circuit.component_ref::<Clock>(clock).state(), *high);
    }
    let clock = circuit.component_mut::<Clock>(clock);
    clock.set_ticks(1, 3);
    clock.set_phase(0);
    assert_eq!((clock.ticks_low(), clock.ticks_high(), clock.tick_phase()), (1, 3, 0));
    circuit.tick();
    assert!(circuit.propagate(10));
    // 9 mod 4 = 1 >= 1
    assert_eq!(circuit.wire(wire), settled(Voltage::High));
}

#[test]
fn controlled_clock() {
    let mut builder = CircuitBuilder::new();
    let enable = builder.add_wire();
    let wire = builder.add_wire();
    let switch = builder.add_component(Constant::new(strong(Voltage::High)), &[], &[enable]);
    let clock = builder.add_component(ControlledClock::new(1, 1, 0), &[enable], &[wire]);
    let mut circuit = builder.build();
    assert!(circuit.propagate(10));
    assert_eq!(circuit.wire(wire), settled(Voltage::Low));
    assert_eq!(circuit.component_ref::<ControlledClock>(clock).enabled(), Voltage::High);

    circuit.tick();
    assert!(circuit.propagate(10));
    assert_eq!(circuit.wire(wire), settled(Voltage::High));
    circuit.tick();
    assert!(circuit.propagate(10));
    assert_eq!(circuit.wire(wire), settled(Voltage::Low));

    // held: the level stays while the input is low
    circuit.component_mut::<Constant>(switch).set(strong(Voltage::Low));
    circuit.tick();
    assert!(circuit.propagate(10));
    let held = circuit.wire(wire).voltage;
    for _ in 0..4 {
        circuit.tick();
        assert!(circuit.propagate(10));
        assert_eq!(circuit.wire(wire), settled(held));
    }
    assert_eq!(circuit.component_ref::<ControlledClock>(clock).enabled(), Voltage::Low);

    // running again
    circuit.component_mut::<Constant>(switch).set(strong(Voltage::High));
    circuit.tick();
    assert!(circuit.propagate(10));
    let mut last = circuit.wire(wire).voltage;
    for _ in 0..4 {
        circuit.tick();
        assert!(circuit.propagate(10));
        let now = circuit.wire(wire).voltage;
        assert_ne!(now, last);
        assert!(now == Voltage::Low || now == Voltage::High);
        last = now;
    }

    // an input without a level latches the error
    circuit.component_mut::<Constant>(switch).set(strong(Voltage::Floating));
    circuit.tick();
    assert!(circuit.propagate(10));
    circuit.tick();
    assert!(circuit.propagate(10));
    assert_eq!(circuit.wire(wire), settled(Voltage::Error));
    assert_eq!(circuit.component_ref::<ControlledClock>(clock).state(), Voltage::Error);
    circuit.component_mut::<Constant>(switch).set(strong(Voltage::High));
    for _ in 0..3 {
        circuit.tick();
        assert!(circuit.propagate(10));
        assert_eq!(circuit.wire(wire), settled(Voltage::Error));
    }
    let timing = circuit.component_ref::<ControlledClock>(clock);
    assert_eq!((timing.ticks_low(), timing.ticks_high()), (1, 1));
    let clock = circuit.component_mut::<ControlledClock>(clock);
    clock.set_ticks(2, 5);
    clock.set_phase(3);
    assert_eq!((clock.ticks_low(), clock.ticks_high(), clock.tick_phase()), (2, 5, 3));
}

struct LatchBench {
    circuit: Circuit,
    set: ComponentRef,
    reset: ComponentRef,
    q: WireRef,
    not_q: WireRef,
}

impl LatchBench {
    fn new() -> Self {
        let mut builder = CircuitBuilder::new();
        let set_wire = builder.add_wire();
        let reset_wire = builder.add_wire();
        let q = builder.add_wire();
        let not_q = builder.add_wire();
        let set = builder.add_component(Constant::new(strong(Low)), &[], &[set_wire]);
        let reset = builder.add_component(Constant::new(strong(Low)), &[], &[reset_wire]);
        builder.add_component(SrNorLatch::default(), &[set_wire, reset_wire], &[q, not_q]);
        LatchBench { circuit: builder.build(), set, reset, q, not_q }
    }

    fn drive(&mut self, set: Voltage, reset: Voltage) -> (Voltage, Voltage) {
        self.circuit.component_mut::<Constant>(self.set).set(strong(set));
        self.circuit.component_mut::<Constant>(self.reset).set(strong(reset));
        self.circuit.tick();
        assert!(self.circuit.propagate(10));
        (self.circuit.wire(self.q).voltage, self.circuit.wire(self.not_q).voltage)
    }
}

#[test]
fn sr_nor_latch() {
    let mut bench = LatchBench::new();
    assert!(bench.circuit.propagate(10));
    // boots in the reset state and holds it
    assert_eq!(bench.circuit.wire(bench.q), settled(Low));
    assert_eq!(bench.circuit.wire(bench.not_q), settled(High));
    assert_eq!(bench.drive(High, Low), (High, Low));
    assert_eq!(bench.drive(Low, Low), (High, Low));
    assert_eq!(bench.drive(Low, High), (Low, High));
    assert_eq!(bench.drive(Low, Low), (Low, High));
    assert_eq!(bench.drive(High, High), (Low, Low));
    assert_eq!(bench.drive(Low, Low), (Error, Error));
    assert_eq!(bench.drive(High, Low), (High, Low));
    assert_eq!(bench.drive(Floating, Low), (High, Low));
    assert_eq!(bench.drive(Floating, High), (Error, Error));
    assert_eq!(bench.drive(Low, High), (Low, High));
    assert_eq!(bench.drive(Low, Error), (Low, High));
    assert_eq!(bench.drive(Error, Error), (Error, Error));
}

#[test]
fn the_same_run_gives_the_same_states() {
    fn run() -> Vec<WireState> {
        let mut builder = CircuitBuilder::new();
        let mut wires = Vec::new();
        for _ in 0..5 {
            wires.push(builder.add_wire());
        }
        builder.add_component(Clock::new(1, 2, 0), &[], &[wires[0]]);
        builder.add_component(Constant::new(weak(Voltage::High)), &[], &[wires[1]]);
        builder.add_component(ControlledBuffer::default(), &[wires[0], wires[1]], &[wires[1]]);
        builder.add_component(NotGate::default(), &[wires[1]], &[wires[2]]);
        builder.add_component(XorGate::default(), &[wires[2], wires[0]], &[wires[3]]);
        builder.add_component(OrGate::default(), &[wires[3], wires[4]], &[wires[4]]);
        let mut circuit = builder.build();
        let mut seen = Vec::new();
        for round in 0..8 {
            circuit.propagate(round % 4);
            for wire in &wires {
                seen.push(circuit.wire(*wire));
            }
            circuit.tick();
        }
        seen
    }
    assert_eq!(run(), run());
}

#[derive(Debug)]
struct Echo {
    value: VoltageInput,
    updates: usize,
}

impl Component for Echo {
    fn update(&mut self, interface: &mut ComponentInterface) {
        self.updates += 1;
        assert_eq!(interface.num_inputs(), 1);
        assert_eq!(interface.num_outputs(), 2);
        let seen = interface.input(0);
        interface.output(0, self.value);
        interface.output(0, self.value);
        interface.output(1, VoltageInput { voltage: seen, resistor: false });
    }

    fn tick(&mut self, _tick: u64) -> bool {
        true
    }
}

#[test]
fn writing_the_value_that_is_there_changes_nothing() {
    let mut builder = CircuitBuilder::new();
    let source = builder.add_wire();
    let fixed = builder.add_wire();
    let copy = builder.add_wire();
    builder.add_component(Constant::new(strong(Voltage::High)), &[], &[source]);
    builder.add_boxed_component(
        ComponentKind::Custom(Box::new(Echo { value: strong(Voltage::Error), updates: 0 })),
        &[source],
        &[fixed, copy],
    );
    let mut circuit = builder.build();
    assert!(circuit.propagate(10));
    assert_eq!(circuit.wire(fixed), settled(Voltage::Error));
    assert_eq!(circuit.wire(copy), settled(Voltage::High));
    // the tick updates the component, which writes what is there already
    circuit.tick();
    assert_eq!(circuit.wire(fixed), settled(Voltage::Error));
    assert_eq!(circuit.wire(copy), settled(Voltage::High));
    assert_eq!(circuit.wire(source), settled(Voltage::High));
    assert!(circuit.propagate(1));
}

#[test]
fn a_component_from_outside_on_the_bench() {
    let echo = Echo { value: weak(Voltage::High), updates: 0 };
    assert_eq!(
        simulate_component_internal(ComponentKind::Custom(Box::new(echo)), &[(1, 1, 1)], &[1, 1]),
        Some(vec![(1, 0), (1, 1)])
    );
    assert_eq!(
        simulate_component_internal(
            ComponentKind::Adder(logic_sim::arithmetic::Adder::new()),
            &[(2, 3, 0), (2, 1, 0), (1, 0, 0)],
            &[3]
        ),
        Some(vec![(4, 0)])
    );
}
