//! The components that a circuit can hold, as one type.
//!
//! A circuit stores each of its components as a [`ComponentKind`]: one variant
//! for each component of the library, and one for a component that its user
//! has written. [`AnyComponent`] takes a component of the library into a
//! `ComponentKind` and finds it there again.
use vstd::prelude::*;
use crate::circuit::{overlay, Component, ComponentInterface};
use crate::components::arithmetic::{
    Adder, BitAdder, Comparator, FullAdder, HalfAdder, Multiplier, Negator, Shifter, Subtractor,
};
use crate::components::clocks::{Clock, ControlledClock};
use crate::components::gates::{
    AndGate, Buffer, Constant, ControlledBuffer, ControlledInverter, ImplyGate, NandGate,
    NaryAndGate, NaryOrGate, NorGate, NotGate, OrGate, ParityGate, XnorGate, XorGate,
};
use crate::components::latches::SrNorLatch;
use crate::components::plexers::{Demultiplexer, Multiplexer, PriorityEncoder};
use crate::voltage::{Voltage, VoltageInput};

verus! {

/// A component as a circuit stores it.
pub enum ComponentKind {
    /// A constant driver.
    Constant(Constant),
    /// A buffer.
    Buffer(Buffer),
    /// An inverter.
    NotGate(NotGate),
    /// An AND gate.
    AndGate(AndGate),
    /// An OR gate.
    OrGate(OrGate),
    /// An XOR gate.
    XorGate(XorGate),
    /// A NAND gate.
    NandGate(NandGate),
    /// A NOR gate.
    NorGate(NorGate),
    /// An XNOR gate.
    XnorGate(XnorGate),
    /// An implication gate.
    ImplyGate(ImplyGate),
    /// A controlled buffer.
    ControlledBuffer(ControlledBuffer),
    /// A controlled inverter.
    ControlledInverter(ControlledInverter),
    /// An AND gate of many inputs.
    NaryAndGate(NaryAndGate),
    /// An OR gate of many inputs.
    NaryOrGate(NaryOrGate),
    /// A parity gate.
    ParityGate(ParityGate),
    /// A population counter.
    BitAdder(BitAdder),
    /// A half adder.
    HalfAdder(HalfAdder),
    /// A full adder.
    FullAdder(FullAdder),
    /// An adder.
    Adder(Adder),
    /// A subtractor.
    Subtractor(Subtractor),
    /// A multiplier.
    Multiplier(Multiplier),
    /// A negator.
    Negator(Negator),
    /// A comparator.
    Comparator(Comparator),
    /// A barrel shifter.
    Shifter(Shifter),
    /// An SR latch.
    SrNorLatch(SrNorLatch),
    /// A clock.
    Clock(Clock),
    /// A controlled clock.
    ControlledClock(ControlledClock),
    /// A multiplexer.
    Multiplexer(Multiplexer),
    /// A demultiplexer.
    Demultiplexer(Demultiplexer),
    /// A priority encoder.
    PriorityEncoder(PriorityEncoder),
    /// A component from outside the library.
    Custom(Box<dyn Component>),
}

impl ComponentKind {
    /// Whether `other` is this component as updates and ticks can have left
    /// it: a component of the same type with the same settings. What a
    /// component remembers between updates may differ.
    pub open spec fn same_make(self, other: ComponentKind) -> bool {
        match (self, other) {
            (ComponentKind::Constant(a), ComponentKind::Constant(b)) => a.value() == b.value(),
            (ComponentKind::Buffer(_), ComponentKind::Buffer(_)) => true,
            (ComponentKind::NotGate(_), ComponentKind::NotGate(_)) => true,
            (ComponentKind::AndGate(_), ComponentKind::AndGate(_)) => true,
            (ComponentKind::OrGate(_), ComponentKind::OrGate(_)) => true,
            (ComponentKind::XorGate(_), ComponentKind::XorGate(_)) => true,
            (ComponentKind::NandGate(_), ComponentKind::NandGate(_)) => true,
            (ComponentKind::NorGate(_), ComponentKind::NorGate(_)) => true,
            (ComponentKind::XnorGate(_), ComponentKind::XnorGate(_)) => true,
            (ComponentKind::ImplyGate(_), ComponentKind::ImplyGate(_)) => true,
            (ComponentKind::ControlledBuffer(_), ComponentKind::ControlledBuffer(_)) => true,
            (ComponentKind::ControlledInverter(_), ComponentKind::ControlledInverter(_)) => true,
            (ComponentKind::NaryAndGate(_), ComponentKind::NaryAndGate(_)) => true,
            (ComponentKind::NaryOrGate(_), ComponentKind::NaryOrGate(_)) => true,
            (ComponentKind::ParityGate(_), ComponentKind::ParityGate(_)) => true,
            (ComponentKind::BitAdder(_), ComponentKind::BitAdder(_)) => true,
            (ComponentKind::HalfAdder(_), ComponentKind::HalfAdder(_)) => true,
            (ComponentKind::FullAdder(_), ComponentKind::FullAdder(_)) => true,
            (ComponentKind::Adder(_), ComponentKind::Adder(_)) => true,
            (ComponentKind::Subtractor(_), ComponentKind::Subtractor(_)) => true,
            (ComponentKind::Multiplier(_), ComponentKind::Multiplier(_)) => true,
            (ComponentKind::Negator(_), ComponentKind::Negator(_)) => true,
            (ComponentKind::Comparator(_), ComponentKind::Comparator(_)) => true,
            (ComponentKind::Shifter(a), ComponentKind::Shifter(b)) => a.select_bits() == b.select_bits(),
            (ComponentKind::SrNorLatch(_), ComponentKind::SrNorLatch(_)) => true,
            (ComponentKind::Clock(a), ComponentKind::Clock(b)) => a@.0 == b@.0 && a@.1 == b@.1 && a@.2 == b@.2,
            (ComponentKind::ControlledClock(a), ComponentKind::ControlledClock(b)) => a.timing().0 == b.timing().0 && a.timing().1 == b.timing().1,
            (ComponentKind::Multiplexer(a), ComponentKind::Multiplexer(b)) => a.width() == b.width(),
            (ComponentKind::Demultiplexer(a), ComponentKind::Demultiplexer(b)) => a.width() == b.width() && a.floats() == b.floats(),
            (ComponentKind::PriorityEncoder(a), ComponentKind::PriorityEncoder(b)) => a.width() == b.width() && a.active_low() == b.active_low(),
            (ComponentKind::Custom(_), ComponentKind::Custom(_)) => true,
            _ => false,
        }
    }

    /// The component after an update that sees `inputs`. Of a component from
    /// outside the library nothing is said.
    pub open spec fn updated(self, inputs: Seq<Voltage>) -> ComponentKind {
        match self {
            ComponentKind::Constant(c) => ComponentKind::Constant(c.rested()),
            ComponentKind::Demultiplexer(c) => ComponentKind::Demultiplexer(c.rested()),
            ComponentKind::PriorityEncoder(c) => ComponentKind::PriorityEncoder(c.rested()),
            ComponentKind::SrNorLatch(c) => ComponentKind::SrNorLatch(c.next(inputs[0], inputs[1])),
            ComponentKind::ControlledClock(c) => ComponentKind::ControlledClock(
                c.seeing(inputs[0]),
            ),
            stateless => stateless,
        }
    }

    /// The component after it was told of tick `tick`. Of a component from
    /// outside the library nothing is said.
    pub open spec fn ticked(self, tick: u64) -> ComponentKind {
        match self {
            ComponentKind::Clock(c) => ComponentKind::Clock(c.at(tick)),
            ComponentKind::ControlledClock(c) => ComponentKind::ControlledClock(c.at(tick)),
            steady => steady,
        }
    }

    /// Whether the component asks for an update at tick `tick`. Of a component
    /// from outside the library nothing is said.
    pub open spec fn fires(self, tick: u64) -> bool {
        match self {
            ComponentKind::Constant(c) => c.changed(),
            ComponentKind::Demultiplexer(c) => c.changed(),
            ComponentKind::PriorityEncoder(c) => c.changed(),
            ComponentKind::Clock(c) => c.at(tick)@.3 != c@.3,
            ComponentKind::ControlledClock(c) => c.at(tick).level() != c.level(),
            _ => false,
        }
    }

    /// `same_make` is reflexive and transitive.
    pub proof fn lemma_same_make(a: ComponentKind, b: ComponentKind, c: ComponentKind)
        ensures
            a.same_make(a),
            a.same_make(b) && b.same_make(c) ==> a.same_make(c),
    {
    }
}

impl Component for ComponentKind {
    open spec fn accepts(&self, num_inputs: nat, num_outputs: nat) -> bool {
        match self {
            ComponentKind::Constant(c) => c.accepts(num_inputs, num_outputs),
            ComponentKind::Buffer(c) => c.accepts(num_inputs, num_outputs),
            ComponentKind::NotGate(c) => c.accepts(num_inputs, num_outputs),
            ComponentKind::AndGate(c) => c.accepts(num_inputs, num_outputs),
            ComponentKind::OrGate(c) => c.accepts(num_inputs, num_outputs),
            ComponentKind::XorGate(c) => c.accepts(num_inputs, num_outputs),
            ComponentKind::NandGate(c) => c.accepts(num_inputs, num_outputs),
            ComponentKind::NorGate(c) => c.accepts(num_inputs, num_outputs),
            ComponentKind::XnorGate(c) => c.accepts(num_inputs, num_outputs),
            ComponentKind::ImplyGate(c) => c.accepts(num_inputs, num_outputs),
            ComponentKind::ControlledBuffer(c) => c.accepts(num_inputs, num_outputs),
            ComponentKind::ControlledInverter(c) => c.accepts(num_inputs, num_outputs),
            ComponentKind::NaryAndGate(c) => c.accepts(num_inputs, num_outputs),
            ComponentKind::NaryOrGate(c) => c.accepts(num_inputs, num_outputs),
            ComponentKind::ParityGate(c) => c.accepts(num_inputs, num_outputs),
            ComponentKind::BitAdder(c) => c.accepts(num_inputs, num_outputs),
            ComponentKind::HalfAdder(c) => c.accepts(num_inputs, num_outputs),
            ComponentKind::FullAdder(c) => c.accepts(num_inputs, num_outputs),
            ComponentKind::Adder(c) => c.accepts(num_inputs, num_outputs),
            ComponentKind::Subtractor(c) => c.accepts(num_inputs, num_outputs),
            ComponentKind::Multiplier(c) => c.accepts(num_inputs, num_outputs),
            ComponentKind::Negator(c) => c.accepts(num_inputs, num_outputs),
            ComponentKind::Comparator(c) => c.accepts(num_inputs, num_outputs),
            ComponentKind::Shifter(c) => c.accepts(num_inputs, num_outputs),
            ComponentKind::SrNorLatch(c) => c.accepts(num_inputs, num_outputs),
            ComponentKind::Clock(c) => c.accepts(num_inputs, num_outputs),
            ComponentKind::ControlledClock(c) => c.accepts(num_inputs, num_outputs),
            ComponentKind::Multiplexer(c) => c.accepts(num_inputs, num_outputs),
            ComponentKind::Demultiplexer(c) => c.accepts(num_inputs, num_outputs),
            ComponentKind::PriorityEncoder(c) => c.accepts(num_inputs, num_outputs),
            ComponentKind::Custom(c) => c.accepts(num_inputs, num_outputs),
        }
    }

    open spec fn driven(&self, inputs: Seq<Voltage>, num_outputs: nat) -> Seq<
        Option<VoltageInput>,
    > {
        match self {
            ComponentKind::Constant(c) => c.driven(inputs, num_outputs),
            ComponentKind::Buffer(c) => c.driven(inputs, num_outputs),
            ComponentKind::NotGate(c) => c.driven(inputs, num_outputs),
            ComponentKind::AndGate(c) => c.driven(inputs, num_outputs),
            ComponentKind::OrGate(c) => c.driven(inputs, num_outputs),
            ComponentKind::XorGate(c) => c.driven(inputs, num_outputs),
            ComponentKind::NandGate(c) => c.driven(inputs, num_outputs),
            ComponentKind::NorGate(c) => c.driven(inputs, num_outputs),
            ComponentKind::XnorGate(c) => c.driven(inputs, num_outputs),
            ComponentKind::ImplyGate(c) => c.driven(inputs, num_outputs),
            ComponentKind::ControlledBuffer(c) => c.driven(inputs, num_outputs),
            ComponentKind::ControlledInverter(c) => c.driven(inputs, num_outputs),
            ComponentKind::NaryAndGate(c) => c.driven(inputs, num_outputs),
            ComponentKind::NaryOrGate(c) => c.driven(inputs, num_outputs),
            ComponentKind::ParityGate(c) => c.driven(inputs, num_outputs),
            ComponentKind::BitAdder(c) => c.driven(inputs, num_outputs),
            ComponentKind::HalfAdder(c) => c.driven(inputs, num_outputs),
            ComponentKind::FullAdder(c) => c.driven(inputs, num_outputs),
            ComponentKind::Adder(c) => c.driven(inputs, num_outputs),
            ComponentKind::Subtractor(c) => c.driven(inputs, num_outputs),
            ComponentKind::Multiplier(c) => c.driven(inputs, num_outputs),
            ComponentKind::Negator(c) => c.driven(inputs, num_outputs),
            ComponentKind::Comparator(c) => c.driven(inputs, num_outputs),
            ComponentKind::Shifter(c) => c.driven(inputs, num_outputs),
            ComponentKind::SrNorLatch(c) => c.driven(inputs, num_outputs),
            ComponentKind::Clock(c) => c.driven(inputs, num_outputs),
            ComponentKind::ControlledClock(c) => c.driven(inputs, num_outputs),
            ComponentKind::Multiplexer(c) => c.driven(inputs, num_outputs),
            ComponentKind::Demultiplexer(c) => c.driven(inputs, num_outputs),
            ComponentKind::PriorityEncoder(c) => c.driven(inputs, num_outputs),
            ComponentKind::Custom(c) => c.driven(inputs, num_outputs),
        }
    }

    fn update(&mut self, interface: &mut ComponentInterface)
        ensures
            old(self).same_make(*final(self)),
            !(*old(self) is Custom) ==> final(interface).outputs() == overlay(
                old(interface).outputs(),
                final(self).driven(old(interface).inputs(), old(interface).outputs().len()),
            ),
            !(*old(self) is Custom) ==> *final(self) == old(self).updated(old(interface).inputs()),
            !(*old(self) is Custom) ==> final(interface).tidy(old(interface)),
    {
        match self {
            ComponentKind::Constant(c) => c.update(interface),
            ComponentKind::Buffer(c) => c.update(interface),
            ComponentKind::NotGate(c) => c.update(interface),
            ComponentKind::AndGate(c) => c.update(interface),
            ComponentKind::OrGate(c) => c.update(interface),
            ComponentKind::XorGate(c) => c.update(interface),
            ComponentKind::NandGate(c) => c.update(interface),
            ComponentKind::NorGate(c) => c.update(interface),
            ComponentKind::XnorGate(c) => c.update(interface),
            ComponentKind::ImplyGate(c) => c.update(interface),
            ComponentKind::ControlledBuffer(c) => c.update(interface),
            ComponentKind::ControlledInverter(c) => c.update(interface),
            ComponentKind::NaryAndGate(c) => c.update(interface),
            ComponentKind::NaryOrGate(c) => c.update(interface),
            ComponentKind::ParityGate(c) => c.update(interface),
            ComponentKind::BitAdder(c) => c.update(interface),
            ComponentKind::HalfAdder(c) => c.update(interface),
            ComponentKind::FullAdder(c) => c.update(interface),
            ComponentKind::Adder(c) => c.update(interface),
            ComponentKind::Subtractor(c) => c.update(interface),
            ComponentKind::Multiplier(c) => c.update(interface),
            ComponentKind::Negator(c) => c.update(interface),
            ComponentKind::Comparator(c) => c.update(interface),
            ComponentKind::Shifter(c) => c.update(interface),
            ComponentKind::SrNorLatch(c) => c.update(interface),
            ComponentKind::Clock(c) => c.update(interface),
            ComponentKind::ControlledClock(c) => c.update(interface),
            ComponentKind::Multiplexer(c) => c.update(interface),
            ComponentKind::Demultiplexer(c) => c.update(interface),
            ComponentKind::PriorityEncoder(c) => c.update(interface),
            ComponentKind::Custom(c) => c.update(interface),
        }
    }

    fn tick(&mut self, tick: u64) -> (fire: bool)
        ensures
            old(self).same_make(*final(self)),
            !(*old(self) is Custom) ==> *final(self) == old(self).ticked(tick) && fire
                == old(self).fires(tick),
    {
        match self {
            ComponentKind::Constant(c) => c.tick(tick),
            ComponentKind::Buffer(c) => c.tick(tick),
            ComponentKind::NotGate(c) => c.tick(tick),
            ComponentKind::AndGate(c) => c.tick(tick),
            ComponentKind::OrGate(c) => c.tick(tick),
            ComponentKind::XorGate(c) => c.tick(tick),
            ComponentKind::NandGate(c) => c.tick(tick),
            ComponentKind::NorGate(c) => c.tick(tick),
            ComponentKind::XnorGate(c) => c.tick(tick),
            ComponentKind::ImplyGate(c) => c.tick(tick),
            ComponentKind::ControlledBuffer(c) => c.tick(tick),
            ComponentKind::ControlledInverter(c) => c.tick(tick),
            ComponentKind::NaryAndGate(c) => c.tick(tick),
            ComponentKind::NaryOrGate(c) => c.tick(tick),
            ComponentKind::ParityGate(c) => c.tick(tick),
            ComponentKind::BitAdder(c) => c.tick(tick),
            ComponentKind::HalfAdder(c) => c.tick(tick),
            ComponentKind::FullAdder(c) => c.tick(tick),
            ComponentKind::Adder(c) => c.tick(tick),
            ComponentKind::Subtractor(c) => c.tick(tick),
            ComponentKind::Multiplier(c) => c.tick(tick),
            ComponentKind::Negator(c) => c.tick(tick),
            ComponentKind::Comparator(c) => c.tick(tick),
            ComponentKind::Shifter(c) => c.tick(tick),
            ComponentKind::SrNorLatch(c) => c.tick(tick),
            ComponentKind::Clock(c) => c.tick(tick),
            ComponentKind::ControlledClock(c) => c.tick(tick),
            ComponentKind::Multiplexer(c) => c.tick(tick),
            ComponentKind::Demultiplexer(c) => c.tick(tick),
            ComponentKind::PriorityEncoder(c) => c.tick(tick),
            ComponentKind::Custom(c) => c.tick(tick),
        }
    }
}

/// A component of the library: one that has a variant of its own in
/// [`ComponentKind`].
pub trait AnyComponent: Component + Sized {
    /// The component as a circuit stores it.
    spec fn kind_of(self) -> ComponentKind;

    /// Whether `kind` holds a component of this type.
    spec fn is_kind(kind: ComponentKind) -> bool;

    /// Wraps the component for a circuit to store.
    fn into_kind(self) -> (kind: ComponentKind)
        ensures
            kind == self.kind_of(),
            !(kind is Custom),
            forall|n: nat, m: nat| #[trigger] kind.accepts(n, m) == self.accepts(n, m),
            forall|inputs: Seq<Voltage>, m: nat| #[trigger]
                kind.driven(inputs, m) == self.driven(inputs, m),
    ;

    /// The component inside `kind`, if it is one of this type.
    fn kind_ref(kind: &ComponentKind) -> (component: Option<&Self>)
        ensures
            component is Some <==> Self::is_kind(*kind),
            match component {
                Some(c) => *kind == c.kind_of(),
                None => forall|c: Self| *kind != c.kind_of(),
            },
    ;

    /// The component inside `kind`, to be changed in place, if it is one of
    /// this type.
    fn kind_mut(kind: &mut ComponentKind) -> (component: Option<&mut Self>)
        ensures
            component is Some <==> Self::is_kind(*old(kind)),
            match component {
                Some(c) => *old(kind) == (*c).kind_of() && *final(kind) == (*final(c)).kind_of(),
                None => *final(kind) == *old(kind) && forall|c: Self| *old(kind) != c.kind_of(),
            },
    ;
}

impl AnyComponent for Constant {
    open spec fn kind_of(self) -> ComponentKind {
        ComponentKind::Constant(self)
    }

    open spec fn is_kind(kind: ComponentKind) -> bool {
        kind is Constant
    }

    fn into_kind(self) -> (kind: ComponentKind) {
        ComponentKind::Constant(self)
    }

    fn kind_ref(kind: &ComponentKind) -> (component: Option<&Self>) {
        match kind {
            ComponentKind::Constant(c) => Some(c),
            _ => None,
        }
    }

    fn kind_mut(kind: &mut ComponentKind) -> (component: Option<&mut Self>) {
        match kind {
            ComponentKind::Constant(c) => Some(c),
            _ => None,
        }
    }
}

impl AnyComponent for Buffer {
    open spec fn kind_of(self) -> ComponentKind {
        ComponentKind::Buffer(self)
    }

    open spec fn is_kind(kind: ComponentKind) -> bool {
        kind is Buffer
    }

    fn into_kind(self) -> (kind: ComponentKind) {
        ComponentKind::Buffer(self)
    }

    fn kind_ref(kind: &ComponentKind) -> (component: Option<&Self>) {
        match kind {
            ComponentKind::Buffer(c) => Some(c),
            _ => None,
        }
    }

    fn kind_mut(kind: &mut ComponentKind) -> (component: Option<&mut Self>) {
        match kind {
            ComponentKind::Buffer(c) => Some(c),
            _ => None,
        }
    }
}

impl AnyComponent for NotGate {
    open spec fn kind_of(self) -> ComponentKind {
        ComponentKind::NotGate(self)
    }

    open spec fn is_kind(kind: ComponentKind) -> bool {
        kind is NotGate
    }

    fn into_kind(self) -> (kind: ComponentKind) {
        ComponentKind::NotGate(self)
    }

    fn kind_ref(kind: &ComponentKind) -> (component: Option<&Self>) {
        match kind {
            ComponentKind::NotGate(c) => Some(c),
            _ => None,
        }
    }

    fn kind_mut(kind: &mut ComponentKind) -> (component: Option<&mut Self>) {
        match kind {
            ComponentKind::NotGate(c) => Some(c),
            _ => None,
        }
    }
}

impl AnyComponent for AndGate {
    open spec fn kind_of(self) -> ComponentKind {
        ComponentKind::AndGate(self)
    }

    open spec fn is_kind(kind: ComponentKind) -> bool {
        kind is AndGate
    }

    fn into_kind(self) -> (kind: ComponentKind) {
        ComponentKind::AndGate(self)
    }

    fn kind_ref(kind: &ComponentKind) -> (component: Option<&Self>) {
        match kind {
            ComponentKind::AndGate(c) => Some(c),
            _ => None,
        }
    }

    fn kind_mut(kind: &mut ComponentKind) -> (component: Option<&mut Self>) {
        match kind {
            ComponentKind::AndGate(c) => Some(c),
            _ => None,
        }
    }
}

impl AnyComponent for OrGate {
    open spec fn kind_of(self) -> ComponentKind {
        ComponentKind::OrGate(self)
    }

    open spec fn is_kind(kind: ComponentKind) -> bool {
        kind is OrGate
    }

    fn into_kind(self) -> (kind: ComponentKind) {
        ComponentKind::OrGate(self)
    }

    fn kind_ref(kind: &ComponentKind) -> (component: Option<&Self>) {
        match kind {
            ComponentKind::OrGate(c) => Some(c),
            _ => None,
        }
    }

    fn kind_mut(kind: &mut ComponentKind) -> (component: Option<&mut Self>) {
        match kind {
            ComponentKind::OrGate(c) => Some(c),
            _ => None,
        }
    }
}

impl AnyComponent for XorGate {
    open spec fn kind_of(self) -> ComponentKind {
        ComponentKind::XorGate(self)
    }

    open spec fn is_kind(kind: ComponentKind) -> bool {
        kind is XorGate
    }

    fn into_kind(self) -> (kind: ComponentKind) {
        ComponentKind::XorGate(self)
    }

    fn kind_ref(kind: &ComponentKind) -> (component: Option<&Self>) {
        match kind {
            ComponentKind::XorGate(c) => Some(c),
            _ => None,
        }
    }

    fn kind_mut(kind: &mut ComponentKind) -> (component: Option<&mut Self>) {
        match kind {
            ComponentKind::XorGate(c) => Some(c),
            _ => None,
        }
    }
}

impl AnyComponent for NandGate {
    open spec fn kind_of(self) -> ComponentKind {
        ComponentKind::NandGate(self)
    }

    open spec fn is_kind(kind: ComponentKind) -> bool {
        kind is NandGate
    }

    fn into_kind(self) -> (kind: ComponentKind) {
        ComponentKind::NandGate(self)
    }

    fn kind_ref(kind: &ComponentKind) -> (component: Option<&Self>) {
        match kind {
            ComponentKind::NandGate(c) => Some(c),
            _ => None,
        }
    }

    fn kind_mut(kind: &mut ComponentKind) -> (component: Option<&mut Self>) {
        match kind {
            ComponentKind::NandGate(c) => Some(c),
            _ => None,
        }
    }
}

impl AnyComponent for NorGate {
    open spec fn kind_of(self) -> ComponentKind {
        ComponentKind::NorGate(self)
    }

    open spec fn is_kind(kind: ComponentKind) -> bool {
        kind is NorGate
    }

    fn into_kind(self) -> (kind: ComponentKind) {
        ComponentKind::NorGate(self)
    }

    fn kind_ref(kind: &ComponentKind) -> (component: Option<&Self>) {
        match kind {
            ComponentKind::NorGate(c) => Some(c),
            _ => None,
        }
    }

    fn kind_mut(kind: &mut ComponentKind) -> (component: Option<&mut Self>) {
        match kind {
            ComponentKind::NorGate(c) => Some(c),
            _ => None,
        }
    }
}

impl AnyComponent for XnorGate {
    open spec fn kind_of(self) -> ComponentKind {
        ComponentKind::XnorGate(self)
    }

    open spec fn is_kind(kind: ComponentKind) -> bool {
        kind is XnorGate
    }

    fn into_kind(self) -> (kind: ComponentKind) {
        ComponentKind::XnorGate(self)
    }

    fn kind_ref(kind: &ComponentKind) -> (component: Option<&Self>) {
        match kind {
            ComponentKind::XnorGate(c) => Some(c),
            _ => None,
        }
    }

    fn kind_mut(kind: &mut ComponentKind) -> (component: Option<&mut Self>) {
        match kind {
            ComponentKind::XnorGate(c) => Some(c),
            _ => None,
        }
    }
}

impl AnyComponent for ImplyGate {
    open spec fn kind_of(self) -> ComponentKind {
        ComponentKind::ImplyGate(self)
    }

    open spec fn is_kind(kind: ComponentKind) -> bool {
        kind is ImplyGate
    }

    fn into_kind(self) -> (kind: ComponentKind) {
        ComponentKind::ImplyGate(self)
    }

    fn kind_ref(kind: &ComponentKind) -> (component: Option<&Self>) {
        match kind {
            ComponentKind::ImplyGate(c) => Some(c),
            _ => None,
        }
    }

    fn kind_mut(kind: &mut ComponentKind) -> (component: Option<&mut Self>) {
        match kind {
            ComponentKind::ImplyGate(c) => Some(c),
            _ => None,
        }
    }
}

impl AnyComponent for ControlledBuffer {
    open spec fn kind_of(self) -> ComponentKind {
        ComponentKind::ControlledBuffer(self)
    }

    open spec fn is_kind(kind: ComponentKind) -> bool {
        kind is ControlledBuffer
    }

    fn into_kind(self) -> (kind: ComponentKind) {
        ComponentKind::ControlledBuffer(self)
    }

    fn kind_ref(kind: &ComponentKind) -> (component: Option<&Self>) {
        match kind {
            ComponentKind::ControlledBuffer(c) => Some(c),
            _ => None,
        }
    }

    fn kind_mut(kind: &mut ComponentKind) -> (component: Option<&mut Self>) {
        match kind {
            ComponentKind::ControlledBuffer(c) => Some(c),
            _ => None,
        }
    }
}

impl AnyComponent for ControlledInverter {
    open spec fn kind_of(self) -> ComponentKind {
        ComponentKind::ControlledInverter(self)
    }

    open spec fn is_kind(kind: ComponentKind) -> bool {
        kind is ControlledInverter
    }

    fn into_kind(self) -> (kind: ComponentKind) {
        ComponentKind::ControlledInverter(self)
    }

    fn kind_ref(kind: &ComponentKind) -> (component: Option<&Self>) {
        match kind {
            ComponentKind::ControlledInverter(c) => Some(c),
            _ => None,
        }
    }

    fn kind_mut(kind: &mut ComponentKind) -> (component: Option<&mut Self>) {
        match kind {
            ComponentKind::ControlledInverter(c) => Some(c),
            _ => None,
        }
    }
}

impl AnyComponent for NaryAndGate {
    open spec fn kind_of(self) -> ComponentKind {
        ComponentKind::NaryAndGate(self)
    }

    open spec fn is_kind(kind: ComponentKind) -> bool {
        kind is NaryAndGate
    }

    fn into_kind(self) -> (kind: ComponentKind) {
        ComponentKind::NaryAndGate(self)
    }

    fn kind_ref(kind: &ComponentKind) -> (component: Option<&Self>) {
        match kind {
            ComponentKind::NaryAndGate(c) => Some(c),
            _ => None,
        }
    }

    fn kind_mut(kind: &mut ComponentKind) -> (component: Option<&mut Self>) {
        match kind {
            ComponentKind::NaryAndGate(c) => Some(c),
            _ => None,
        }
    }
}

impl AnyComponent for NaryOrGate {
    open spec fn kind_of(self) -> ComponentKind {
        ComponentKind::NaryOrGate(self)
    }

    open spec fn is_kind(kind: ComponentKind) -> bool {
        kind is NaryOrGate
    }

    fn into_kind(self) -> (kind: ComponentKind) {
        ComponentKind::NaryOrGate(self)
    }

    fn kind_ref(kind: &ComponentKind) -> (component: Option<&Self>) {
        match kind {
            ComponentKind::NaryOrGate(c) => Some(c),
            _ => None,
        }
    }

    fn kind_mut(kind: &mut ComponentKind) -> (component: Option<&mut Self>) {
        match kind {
            ComponentKind::NaryOrGate(c) => Some(c),
            _ => None,
        }
    }
}

impl AnyComponent for ParityGate {
    open spec fn kind_of(self) -> ComponentKind {
        ComponentKind::ParityGate(self)
    }

    open spec fn is_kind(kind: ComponentKind) -> bool {
        kind is ParityGate
    }

    fn into_kind(self) -> (kind: ComponentKind) {
        ComponentKind::ParityGate(self)
    }

    fn kind_ref(kind: &ComponentKind) -> (component: Option<&Self>) {
        match kind {
            ComponentKind::ParityGate(c) => Some(c),
            _ => None,
        }
    }

    fn kind_mut(kind: &mut ComponentKind) -> (component: Option<&mut Self>) {
        match kind {
            ComponentKind::ParityGate(c) => Some(c),
            _ => None,
        }
    }
}

impl AnyComponent for BitAdder {
    open spec fn kind_of(self) -> ComponentKind {
        ComponentKind::BitAdder(self)
    }

    open spec fn is_kind(kind: ComponentKind) -> bool {
        kind is BitAdder
    }

    fn into_kind(self) -> (kind: ComponentKind) {
        ComponentKind::BitAdder(self)
    }

    fn kind_ref(kind: &ComponentKind) -> (component: Option<&Self>) {
        match kind {
            ComponentKind::BitAdder(c) => Some(c),
            _ => None,
        }
    }

    fn kind_mut(kind: &mut ComponentKind) -> (component: Option<&mut Self>) {
        match kind {
            ComponentKind::BitAdder(c) => Some(c),
            _ => None,
        }
    }
}

impl AnyComponent for HalfAdder {
    open spec fn kind_of(self) -> ComponentKind {
        ComponentKind::HalfAdder(self)
    }

    open spec fn is_kind(kind: ComponentKind) -> bool {
        kind is HalfAdder
    }

    fn into_kind(self) -> (kind: ComponentKind) {
        ComponentKind::HalfAdder(self)
    }

    fn kind_ref(kind: &ComponentKind) -> (component: Option<&Self>) {
        match kind {
            ComponentKind::HalfAdder(c) => Some(c),
            _ => None,
        }
    }

    fn kind_mut(kind: &mut ComponentKind) -> (component: Option<&mut Self>) {
        match kind {
            ComponentKind::HalfAdder(c) => Some(c),
            _ => None,
        }
    }
}

impl AnyComponent for FullAdder {
    open spec fn kind_of(self) -> ComponentKind {
        ComponentKind::FullAdder(self)
    }

    open spec fn is_kind(kind: ComponentKind) -> bool {
        kind is FullAdder
    }

    fn into_kind(self) -> (kind: ComponentKind) {
        ComponentKind::FullAdder(self)
    }

    fn kind_ref(kind: &ComponentKind) -> (component: Option<&Self>) {
        match kind {
            ComponentKind::FullAdder(c) => Some(c),
            _ => None,
        }
    }

    fn kind_mut(kind: &mut ComponentKind) -> (component: Option<&mut Self>) {
        match kind {
            ComponentKind::FullAdder(c) => Some(c),
            _ => None,
        }
    }
}

impl AnyComponent for Adder {
    open spec fn kind_of(self) -> ComponentKind {
        ComponentKind::Adder(self)
    }

    open spec fn is_kind(kind: ComponentKind) -> bool {
        kind is Adder
    }

    fn into_kind(self) -> (kind: ComponentKind) {
        ComponentKind::Adder(self)
    }

    fn kind_ref(kind: &ComponentKind) -> (component: Option<&Self>) {
        match kind {
            ComponentKind::Adder(c) => Some(c),
            _ => None,
        }
    }

    fn kind_mut(kind: &mut ComponentKind) -> (component: Option<&mut Self>) {
        match kind {
            ComponentKind::Adder(c) => Some(c),
            _ => None,
        }
    }
}

impl AnyComponent for Subtractor {
    open spec fn kind_of(self) -> ComponentKind {
        ComponentKind::Subtractor(self)
    }

    open spec fn is_kind(kind: ComponentKind) -> bool {
        kind is Subtractor
    }

    fn into_kind(self) -> (kind: ComponentKind) {
        ComponentKind::Subtractor(self)
    }

    fn kind_ref(kind: &ComponentKind) -> (component: Option<&Self>) {
        match kind {
            ComponentKind::Subtractor(c) => Some(c),
            _ => None,
        }
    }

    fn kind_mut(kind: &mut ComponentKind) -> (component: Option<&mut Self>) {
        match kind {
            ComponentKind::Subtractor(c) => Some(c),
            _ => None,
        }
    }
}

impl AnyComponent for Multiplier {
    open spec fn kind_of(self) -> ComponentKind {
        ComponentKind::Multiplier(self)
    }

    open spec fn is_kind(kind: ComponentKind) -> bool {
        kind is Multiplier
    }

    fn into_kind(self) -> (kind: ComponentKind) {
        ComponentKind::Multiplier(self)
    }

    fn kind_ref(kind: &ComponentKind) -> (component: Option<&Self>) {
        match kind {
            ComponentKind::Multiplier(c) => Some(c),
            _ => None,
        }
    }

    fn kind_mut(kind: &mut ComponentKind) -> (component: Option<&mut Self>) {
        match kind {
            ComponentKind::Multiplier(c) => Some(c),
            _ => None,
        }
    }
}

impl AnyComponent for Negator {
    open spec fn kind_of(self) -> ComponentKind {
        ComponentKind::Negator(self)
    }

    open spec fn is_kind(kind: ComponentKind) -> bool {
        kind is Negator
    }

    fn into_kind(self) -> (kind: ComponentKind) {
        ComponentKind::Negator(self)
    }

    fn kind_ref(kind: &ComponentKind) -> (component: Option<&Self>) {
        match kind {
            ComponentKind::Negator(c) => Some(c),
            _ => None,
        }
    }

    fn kind_mut(kind: &mut ComponentKind) -> (component: Option<&mut Self>) {
        match kind {
            ComponentKind::Negator(c) => Some(c),
            _ => None,
        }
    }
}

impl AnyComponent for Comparator {
    open spec fn kind_of(self) -> ComponentKind {
        ComponentKind::Comparator(self)
    }

    open spec fn is_kind(kind: ComponentKind) -> bool {
        kind is Comparator
    }

    fn into_kind(self) -> (kind: ComponentKind) {
        ComponentKind::Comparator(self)
    }

    fn kind_ref(kind: &ComponentKind) -> (component: Option<&Self>) {
        match kind {
            ComponentKind::Comparator(c) => Some(c),
            _ => None,
        }
    }

    fn kind_mut(kind: &mut ComponentKind) -> (component: Option<&mut Self>) {
        match kind {
            ComponentKind::Comparator(c) => Some(c),
            _ => None,
        }
    }
}

impl AnyComponent for Shifter {
    open spec fn kind_of(self) -> ComponentKind {
        ComponentKind::Shifter(self)
    }

    open spec fn is_kind(kind: ComponentKind) -> bool {
        kind is Shifter
    }

    fn into_kind(self) -> (kind: ComponentKind) {
        ComponentKind::Shifter(self)
    }

    fn kind_ref(kind: &ComponentKind) -> (component: Option<&Self>) {
        match kind {
            ComponentKind::Shifter(c) => Some(c),
            _ => None,
        }
    }

    fn kind_mut(kind: &mut ComponentKind) -> (component: Option<&mut Self>) {
        match kind {
            ComponentKind::Shifter(c) => Some(c),
            _ => None,
        }
    }
}

impl AnyComponent for SrNorLatch {
    open spec fn kind_of(self) -> ComponentKind {
        ComponentKind::SrNorLatch(self)
    }

    open spec fn is_kind(kind: ComponentKind) -> bool {
        kind is SrNorLatch
    }

    fn into_kind(self) -> (kind: ComponentKind) {
        ComponentKind::SrNorLatch(self)
    }

    fn kind_ref(kind: &ComponentKind) -> (component: Option<&Self>) {
        match kind {
            ComponentKind::SrNorLatch(c) => Some(c),
            _ => None,
        }
    }

    fn kind_mut(kind: &mut ComponentKind) -> (component: Option<&mut Self>) {
        match kind {
            ComponentKind::SrNorLatch(c) => Some(c),
            _ => None,
        }
    }
}

impl AnyComponent for Clock {
    open spec fn kind_of(self) -> ComponentKind {
        ComponentKind::Clock(self)
    }

    open spec fn is_kind(kind: ComponentKind) -> bool {
        kind is Clock
    }

    fn into_kind(self) -> (kind: ComponentKind) {
        ComponentKind::Clock(self)
    }

    fn kind_ref(kind: &ComponentKind) -> (component: Option<&Self>) {
        match kind {
            ComponentKind::Clock(c) => Some(c),
            _ => None,
        }
    }

    fn kind_mut(kind: &mut ComponentKind) -> (component: Option<&mut Self>) {
        match kind {
            ComponentKind::Clock(c) => Some(c),
            _ => None,
        }
    }
}

impl AnyComponent for ControlledClock {
    open spec fn kind_of(self) -> ComponentKind {
        ComponentKind::ControlledClock(self)
    }

    open spec fn is_kind(kind: ComponentKind) -> bool {
        kind is ControlledClock
    }

    fn into_kind(self) -> (kind: ComponentKind) {
        ComponentKind::ControlledClock(self)
    }

    fn kind_ref(kind: &ComponentKind) -> (component: Option<&Self>) {
        match kind {
            ComponentKind::ControlledClock(c) => Some(c),
            _ => None,
        }
    }

    fn kind_mut(kind: &mut ComponentKind) -> (component: Option<&mut Self>) {
        match kind {
            ComponentKind::ControlledClock(c) => Some(c),
            _ => None,
        }
    }
}

impl AnyComponent for Multiplexer {
    open spec fn kind_of(self) -> ComponentKind {
        ComponentKind::Multiplexer(self)
    }

    open spec fn is_kind(kind: ComponentKind) -> bool {
        kind is Multiplexer
    }

    fn into_kind(self) -> (kind: ComponentKind) {
        ComponentKind::Multiplexer(self)
    }

    fn kind_ref(kind: &ComponentKind) -> (component: Option<&Self>) {
        match kind {
            ComponentKind::Multiplexer(c) => Some(c),
            _ => None,
        }
    }

    fn kind_mut(kind: &mut ComponentKind) -> (component: Option<&mut Self>) {
        match kind {
            ComponentKind::Multiplexer(c) => Some(c),
            _ => None,
        }
    }
}

impl AnyComponent for Demultiplexer {
    open spec fn kind_of(self) -> ComponentKind {
        ComponentKind::Demultiplexer(self)
    }

    open spec fn is_kind(kind: ComponentKind) -> bool {
        kind is Demultiplexer
    }

    fn into_kind(self) -> (kind: ComponentKind) {
        ComponentKind::Demultiplexer(self)
    }

    fn kind_ref(kind: &ComponentKind) -> (component: Option<&Self>) {
        match kind {
            ComponentKind::Demultiplexer(c) => Some(c),
            _ => None,
        }
    }

    fn kind_mut(kind: &mut ComponentKind) -> (component: Option<&mut Self>) {
        match kind {
            ComponentKind::Demultiplexer(c) => Some(c),
            _ => None,
        }
    }
}

impl AnyComponent for PriorityEncoder {
    open spec fn kind_of(self) -> ComponentKind {
        ComponentKind::PriorityEncoder(self)
    }

    open spec fn is_kind(kind: ComponentKind) -> bool {
        kind is PriorityEncoder
    }

    fn into_kind(self) -> (kind: ComponentKind) {
        ComponentKind::PriorityEncoder(self)
    }

    fn kind_ref(kind: &ComponentKind) -> (component: Option<&Self>) {
        match kind {
            ComponentKind::PriorityEncoder(c) => Some(c),
            _ => None,
        }
    }

    fn kind_mut(kind: &mut ComponentKind) -> (component: Option<&mut Self>) {
        match kind {
            ComponentKind::PriorityEncoder(c) => Some(c),
            _ => None,
        }
    }
}

} // verus!
