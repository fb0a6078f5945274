//! Constants and the combinational gates.
use vstd::prelude::*;
use core::marker::PhantomData;
use crate::circuit::{overlay, Component, ComponentInterface};
use crate::components::drive::{lemma_single, single};
use crate::voltage::{Voltage, VoltageInput};

verus! {

/// A driver of one fixed, settable value.
#[derive(Debug, Copy, Clone)]
pub struct Constant {
    value: VoltageInput,
    changed: bool,
}

impl Constant {
    /// The value that the constant drives.
    pub closed spec fn value(&self) -> VoltageInput {
        self.value
    }

    /// Whether the value was set to another since the last update.
    pub closed spec fn changed(&self) -> bool {
        self.changed
    }

    /// The constant after an update: with the same value, and nothing
    /// changed.
    pub closed spec fn rested(self) -> Constant {
        Constant { value: self.value, changed: false }
    }

    /// A constant that drives `value`.
    pub fn new(value: VoltageInput) -> (c: Self)
        ensures
            c.value() == value,
            !c.changed(),
    {
        Constant { value, changed: false }
    }

    /// Makes the constant drive `value` from the next tick on.
    pub fn set(&mut self, value: VoltageInput) -> (c: &mut Self)
        ensures
            c.value() == value,
            c.changed() == (old(self).changed() || value != old(self).value()),
            *final(self) == *final(c),
    {
        if value != self.value {
            self.value = value;
            self.changed = true;
        }
        self
    }

    /// The value that the constant drives.
    pub fn get(&self) -> (value: VoltageInput)
        ensures
            value == self.value(),
    {
        self.value
    }
}

impl Component for Constant {
    open spec fn accepts(&self, num_inputs: nat, num_outputs: nat) -> bool {
        num_outputs >= 1
    }

    open spec fn driven(&self, inputs: Seq<Voltage>, num_outputs: nat) -> Seq<
        Option<VoltageInput>,
    > {
        single(num_outputs, self.value())
    }

    fn update(&mut self, interface: &mut ComponentInterface)
        ensures
            final(interface).outputs() == overlay(
                old(interface).outputs(),
                final(self).driven(old(interface).inputs(), old(interface).outputs().len()),
            ),
            final(interface).tidy(old(interface)),
            final(self).value() == old(self).value(),
            !final(self).changed(),
            *final(self) == old(self).rested(),
    {
        self.changed = false;
        proof {
            lemma_single(interface.outputs(), self.value);
        }
        interface.output(0, self.value);
    }

    fn tick(&mut self, _tick: u64) -> (fire: bool)
        ensures
            fire == old(self).changed(),
            *final(self) == *old(self),
    {
        self.changed
    }
}

/// The function of a gate with one input.
pub trait UnaryGateFn: 'static + core::fmt::Debug {
    /// What such a gate drives when its input carries `a`.
    spec fn call_spec(a: Voltage) -> VoltageInput;

    /// What such a gate drives when its input carries `a`.
    fn call(a: Voltage) -> (r: VoltageInput)
        ensures
            r == Self::call_spec(a),
    ;
}

/// A gate with one input and one output.
#[derive(Debug)]
pub struct UnaryGate<F: UnaryGateFn>(PhantomData<&'static F>);

impl<F: UnaryGateFn> UnaryGate<F> {
    /// The one gate of function `F`: a gate holds nothing, so there is no other.
    pub closed spec fn only() -> Self {
        UnaryGate(PhantomData)
    }

    /// A gate of function `F`.
    pub fn new() -> (gate: Self)
        ensures
            gate == Self::only(),
    {
        UnaryGate(PhantomData)
    }

    /// All gates of one function are the same gate.
    pub proof fn lemma_only(self)
        ensures
            self == Self::only(),
    {
    }
}

impl<F: UnaryGateFn> Component for UnaryGate<F> {
    open spec fn accepts(&self, num_inputs: nat, num_outputs: nat) -> bool {
        num_inputs >= 1 && num_outputs >= 1
    }

    open spec fn driven(&self, inputs: Seq<Voltage>, num_outputs: nat) -> Seq<
        Option<VoltageInput>,
    > {
        single(num_outputs, F::call_spec(inputs[0]))
    }

    fn update(&mut self, interface: &mut ComponentInterface)
        ensures
            final(interface).outputs() == overlay(
                old(interface).outputs(),
                final(self).driven(old(interface).inputs(), old(interface).outputs().len()),
            ),
            final(interface).tidy(old(interface)),
            *final(self) == *old(self),
    {
        let result = F::call(interface.input(0));
        proof {
            lemma_single(interface.outputs(), result);
        }
        interface.output(0, result);
    }

    fn tick(&mut self, _tick: u64) -> (fire: bool)
        ensures
            !fire,
            *final(self) == *old(self),
    {
        false
    }
}

impl<F: UnaryGateFn> Default for UnaryGate<F> {
    fn default() -> (gate: Self) {
        UnaryGate(PhantomData)
    }
}

impl<F: UnaryGateFn> Clone for UnaryGate<F> {
    fn clone(&self) -> (gate: Self) {
        UnaryGate(PhantomData)
    }
}

/// The identity: the input, driven strongly.
#[derive(Debug)]
pub struct IdentityFn;

impl UnaryGateFn for IdentityFn {
    open spec fn call_spec(a: Voltage) -> VoltageInput {
        VoltageInput::strong(a)
    }

    fn call(a: Voltage) -> (r: VoltageInput) {
        VoltageInput::strong(a)
    }
}

/// A gate that repeats its input.
pub type Buffer = UnaryGate<IdentityFn>;

/// Negation: `High` for `Low`, `Low` for `High`, `Error` otherwise.
#[derive(Debug)]
pub struct NotFn;

impl UnaryGateFn for NotFn {
    open spec fn call_spec(a: Voltage) -> VoltageInput {
        VoltageInput::strong(
            match a {
                Voltage::Low => Voltage::High,
                Voltage::High => Voltage::Low,
                _ => Voltage::Error,
            },
        )
    }

    fn call(a: Voltage) -> (r: VoltageInput) {
        VoltageInput::strong(
            match a {
                Voltage::Low => Voltage::High,
                Voltage::High => Voltage::Low,
                _ => Voltage::Error,
            },
        )
    }
}

/// A gate that negates its input.
pub type NotGate = UnaryGate<NotFn>;

/// The function of a gate with two inputs.
pub trait BinaryGateFn: 'static + core::fmt::Debug {
    /// What such a gate drives when its inputs carry `a` and `b`.
    spec fn call_spec(a: Voltage, b: Voltage) -> VoltageInput;

    /// What such a gate drives when its inputs carry `a` and `b`.
    fn call(a: Voltage, b: Voltage) -> (r: VoltageInput)
        ensures
            r == Self::call_spec(a, b),
    ;
}

/// A gate with two inputs and one output.
#[derive(Debug)]
pub struct BinaryGate<F: BinaryGateFn>(PhantomData<&'static F>);

impl<F: BinaryGateFn> BinaryGate<F> {
    /// The one gate of function `F`: a gate holds nothing, so there is no other.
    pub closed spec fn only() -> Self {
        BinaryGate(PhantomData)
    }

    /// A gate of function `F`.
    pub fn new() -> (gate: Self)
        ensures
            gate == Self::only(),
    {
        BinaryGate(PhantomData)
    }

    /// All gates of one function are the same gate.
    pub proof fn lemma_only(self)
        ensures
            self == Self::only(),
    {
    }
}

impl<F: BinaryGateFn> Component for BinaryGate<F> {
    open spec fn accepts(&self, num_inputs: nat, num_outputs: nat) -> bool {
        num_inputs >= 2 && num_outputs >= 1
    }

    open spec fn driven(&self, inputs: Seq<Voltage>, num_outputs: nat) -> Seq<
        Option<VoltageInput>,
    > {
        single(num_outputs, F::call_spec(inputs[0], inputs[1]))
    }

    fn update(&mut self, interface: &mut ComponentInterface)
        ensures
            final(interface).outputs() == overlay(
                old(interface).outputs(),
                final(self).driven(old(interface).inputs(), old(interface).outputs().len()),
            ),
            final(interface).tidy(old(interface)),
            *final(self) == *old(self),
    {
        let result = F::call(interface.input(0), interface.input(1));
        proof {
            lemma_single(interface.outputs(), result);
        }
        interface.output(0, result);
    }

    fn tick(&mut self, _tick: u64) -> (fire: bool)
        ensures
            !fire,
            *final(self) == *old(self),
    {
        false
    }
}

impl<F: BinaryGateFn> Default for BinaryGate<F> {
    fn default() -> (gate: Self) {
        BinaryGate(PhantomData)
    }
}

impl<F: BinaryGateFn> Clone for BinaryGate<F> {
    fn clone(&self) -> (gate: Self) {
        BinaryGate(PhantomData)
    }
}

/// The conjunction of two voltages. One `Low` decides for `Low`, whatever
/// the other is.
pub open spec fn and_of(a: Voltage, b: Voltage) -> Voltage {
    if a == Voltage::Low || b == Voltage::Low {
        Voltage::Low
    } else if a == Voltage::High && b == Voltage::High {
        Voltage::High
    } else {
        Voltage::Error
    }
}

/// The exclusive or of two voltages, `Error` unless both are logic levels.
pub open spec fn xor_of(a: Voltage, b: Voltage) -> Voltage {
    if a.is_defined() && b.is_defined() {
        if a == b {
            Voltage::Low
        } else {
            Voltage::High
        }
    } else {
        Voltage::Error
    }
}

/// Conjunction. One `Low` input decides for `Low`, whatever the other
/// carries.
#[derive(Debug)]
pub struct AndFn;

impl BinaryGateFn for AndFn {
    open spec fn call_spec(a: Voltage, b: Voltage) -> VoltageInput {
        VoltageInput::strong(and_of(a, b))
    }

    fn call(a: Voltage, b: Voltage) -> (r: VoltageInput) {
        VoltageInput::strong(
            if a == Voltage::Low || b == Voltage::Low {
                Voltage::Low
            } else if a == Voltage::High && b == Voltage::High {
                Voltage::High
            } else {
                Voltage::Error
            },
        )
    }
}

/// A gate that drives the conjunction of its two inputs.
pub type AndGate = BinaryGate<AndFn>;

/// Disjunction. One `High` input decides for `High`, whatever the other
/// carries.
#[derive(Debug)]
pub struct OrFn;

impl BinaryGateFn for OrFn {
    open spec fn call_spec(a: Voltage, b: Voltage) -> VoltageInput {
        VoltageInput::strong(
            if a == Voltage::High || b == Voltage::High {
                Voltage::High
            } else if a == Voltage::Low && b == Voltage::Low {
                Voltage::Low
            } else {
                Voltage::Error
            },
        )
    }

    fn call(a: Voltage, b: Voltage) -> (r: VoltageInput) {
        VoltageInput::strong(
            if a == Voltage::High || b == Voltage::High {
                Voltage::High
            } else if a == Voltage::Low && b == Voltage::Low {
                Voltage::Low
            } else {
                Voltage::Error
            },
        )
    }
}

/// A gate that drives the disjunction of its two inputs.
pub type OrGate = BinaryGate<OrFn>;

/// Exclusive or. Both inputs must carry a logic level.
#[derive(Debug)]
pub struct XorFn;

impl BinaryGateFn for XorFn {
    open spec fn call_spec(a: Voltage, b: Voltage) -> VoltageInput {
        VoltageInput::strong(xor_of(a, b))
    }

    fn call(a: Voltage, b: Voltage) -> (r: VoltageInput) {
        VoltageInput::strong(
            match (a, b) {
                (Voltage::Low, Voltage::High) | (Voltage::High, Voltage::Low) => Voltage::High,
                (Voltage::Low, Voltage::Low) | (Voltage::High, Voltage::High) => Voltage::Low,
                _ => Voltage::Error,
            },
        )
    }
}

/// A gate that drives the exclusive or of its two inputs.
pub type XorGate = BinaryGate<XorFn>;

/// Negated conjunction. One `Low` input decides for `High`.
#[derive(Debug)]
pub struct NandFn;

impl BinaryGateFn for NandFn {
    open spec fn call_spec(a: Voltage, b: Voltage) -> VoltageInput {
        VoltageInput::strong(
            if a == Voltage::Low || b == Voltage::Low {
                Voltage::High
            } else if a == Voltage::High && b == Voltage::High {
                Voltage::Low
            } else {
                Voltage::Error
            },
        )
    }

    fn call(a: Voltage, b: Voltage) -> (r: VoltageInput) {
        VoltageInput::strong(
            if a == Voltage::Low || b == Voltage::Low {
                Voltage::High
            } else if a == Voltage::High && b == Voltage::High {
                Voltage::Low
            } else {
                Voltage::Error
            },
        )
    }
}

/// A gate that drives the negated conjunction of its two inputs.
pub type NandGate = BinaryGate<NandFn>;

/// Negated disjunction. One `High` input decides for `Low`.
#[derive(Debug)]
pub struct NorFn;

impl BinaryGateFn for NorFn {
    open spec fn call_spec(a: Voltage, b: Voltage) -> VoltageInput {
        VoltageInput::strong(
            if a == Voltage::High || b == Voltage::High {
                Voltage::Low
            } else if a == Voltage::Low && b == Voltage::Low {
                Voltage::High
            } else {
                Voltage::Error
            },
        )
    }

    fn call(a: Voltage, b: Voltage) -> (r: VoltageInput) {
        VoltageInput::strong(
            if a == Voltage::High || b == Voltage::High {
                Voltage::Low
            } else if a == Voltage::Low && b == Voltage::Low {
                Voltage::High
            } else {
                Voltage::Error
            },
        )
    }
}

/// A gate that drives the negated disjunction of its two inputs.
pub type NorGate = BinaryGate<NorFn>;

/// Equivalence. Both inputs must carry a logic level.
#[derive(Debug)]
pub struct XnorFn;

impl BinaryGateFn for XnorFn {
    open spec fn call_spec(a: Voltage, b: Voltage) -> VoltageInput {
        VoltageInput::strong(
            if a.is_defined() && b.is_defined() {
                if a == b {
                    Voltage::High
                } else {
                    Voltage::Low
                }
            } else {
                Voltage::Error
            },
        )
    }

    fn call(a: Voltage, b: Voltage) -> (r: VoltageInput) {
        VoltageInput::strong(
            match (a, b) {
                (Voltage::Low, Voltage::High) | (Voltage::High, Voltage::Low) => Voltage::Low,
                (Voltage::Low, Voltage::Low) | (Voltage::High, Voltage::High) => Voltage::High,
                _ => Voltage::Error,
            },
        )
    }
}

/// A gate that drives the equivalence of its two inputs.
pub type XnorGate = BinaryGate<XnorFn>;

/// Implication, `a` implies `b`. A `Low` premise or a `High` conclusion
/// decides for `High`.
#[derive(Debug)]
pub struct ImplyFn;

impl BinaryGateFn for ImplyFn {
    open spec fn call_spec(a: Voltage, b: Voltage) -> VoltageInput {
        VoltageInput::strong(
            if a == Voltage::Low || b == Voltage::High {
                Voltage::High
            } else if a == Voltage::High && b == Voltage::Low {
                Voltage::Low
            } else {
                Voltage::Error
            },
        )
    }

    fn call(a: Voltage, b: Voltage) -> (r: VoltageInput) {
        VoltageInput::strong(
            if a == Voltage::Low || b == Voltage::High {
                Voltage::High
            } else if a == Voltage::High && b == Voltage::Low {
                Voltage::Low
            } else {
                Voltage::Error
            },
        )
    }
}

/// A gate that drives whether its first input implies its second.
pub type ImplyGate = BinaryGate<ImplyFn>;

/// A switch: the data `a` while the control `b` is `High`, `Floating` while
/// it is `Low`, `Error` otherwise.
#[derive(Debug)]
pub struct ControlFn;

impl BinaryGateFn for ControlFn {
    open spec fn call_spec(a: Voltage, b: Voltage) -> VoltageInput {
        VoltageInput::strong(
            match b {
                Voltage::High => a,
                Voltage::Low => Voltage::Floating,
                _ => Voltage::Error,
            },
        )
    }

    fn call(a: Voltage, b: Voltage) -> (r: VoltageInput) {
        VoltageInput::strong(
            match b {
                Voltage::High => a,
                Voltage::Low => Voltage::Floating,
                _ => Voltage::Error,
            },
        )
    }
}

/// A buffer that lets go of its output while its control input is `Low`.
pub type ControlledBuffer = BinaryGate<ControlFn>;

/// A negating switch: the negation of the data `a` while the control `b` is
/// `High`, `Floating` while it is `Low`, `Error` otherwise and for data that
/// is no logic level.
#[derive(Debug)]
pub struct InvertedControlFn;

impl BinaryGateFn for InvertedControlFn {
    open spec fn call_spec(a: Voltage, b: Voltage) -> VoltageInput {
        VoltageInput::strong(
            match (a, b) {
                (Voltage::Low, Voltage::High) => Voltage::High,
                (Voltage::High, Voltage::High) => Voltage::Low,
                (_, Voltage::Low) => Voltage::Floating,
                _ => Voltage::Error,
            },
        )
    }

    fn call(a: Voltage, b: Voltage) -> (r: VoltageInput) {
        VoltageInput::strong(
            match (a, b) {
                (Voltage::Low, Voltage::High) => Voltage::High,
                (Voltage::High, Voltage::High) => Voltage::Low,
                (_, Voltage::Low) => Voltage::Floating,
                _ => Voltage::Error,
            },
        )
    }
}

/// An inverter that lets go of its output while its control input is `Low`.
pub type ControlledInverter = BinaryGate<InvertedControlFn>;

/// The left fold of the function `F` over the first `n` of `inputs`,
/// for `n` of two or more.
pub open spec fn fold_gate<F: BinaryGateFn>(inputs: Seq<Voltage>, n: int) -> VoltageInput
    decreases n,
{
    if n <= 2 {
        F::call_spec(inputs[0], inputs[1])
    } else {
        F::call_spec(fold_gate::<F>(inputs, n - 1).voltage, inputs[n - 1])
    }
}

/// A gate that folds a two-input function over any number of inputs, two
/// at least.
#[derive(Debug)]
pub struct NaryGate<F: BinaryGateFn>(PhantomData<&'static F>);

impl<F: BinaryGateFn> NaryGate<F> {
    /// The one gate of function `F`: a gate holds nothing, so there is no other.
    pub closed spec fn only() -> Self {
        NaryGate(PhantomData)
    }

    /// A gate of function `F`.
    pub fn new() -> (gate: Self)
        ensures
            gate == Self::only(),
    {
        NaryGate(PhantomData)
    }

    /// All gates of one function are the same gate.
    pub proof fn lemma_only(self)
        ensures
            self == Self::only(),
    {
    }
}

impl<F: BinaryGateFn> Component for NaryGate<F> {
    open spec fn accepts(&self, num_inputs: nat, num_outputs: nat) -> bool {
        num_inputs >= 2 && num_outputs >= 1
    }

    open spec fn driven(&self, inputs: Seq<Voltage>, num_outputs: nat) -> Seq<
        Option<VoltageInput>,
    > {
        single(num_outputs, fold_gate::<F>(inputs, inputs.len() as int))
    }

    fn update(&mut self, interface: &mut ComponentInterface)
        ensures
            final(interface).outputs() == overlay(
                old(interface).outputs(),
                final(self).driven(old(interface).inputs(), old(interface).outputs().len()),
            ),
            final(interface).tidy(old(interface)),
            *final(self) == *old(self),
    {
        let n: usize = interface.num_inputs();
        let mut result = F::call(interface.input(0), interface.input(1));
        let mut i: usize = 2;
        while i < n
            invariant
                2 <= i <= n,
                n == interface.inputs().len(),
                interface.wf(),
                result == fold_gate::<F>(interface.inputs(), i as int),
            decreases n - i,
        {
            result = F::call(result.voltage, interface.input(i));
            i += 1;
        }
        proof {
            lemma_single(interface.outputs(), result);
        }
        interface.output(0, result);
    }

    fn tick(&mut self, _tick: u64) -> (fire: bool)
        ensures
            !fire,
            *final(self) == *old(self),
    {
        false
    }
}

impl<F: BinaryGateFn> Default for NaryGate<F> {
    fn default() -> (gate: Self) {
        NaryGate(PhantomData)
    }
}

impl<F: BinaryGateFn> Clone for NaryGate<F> {
    fn clone(&self) -> (gate: Self) {
        NaryGate(PhantomData)
    }
}

/// A gate that drives the conjunction of all its inputs.
pub type NaryAndGate = NaryGate<AndFn>;

/// A gate that drives the disjunction of all its inputs.
pub type NaryOrGate = NaryGate<OrFn>;

/// A gate that drives the parity of all its inputs.
pub type ParityGate = NaryGate<XorFn>;

} // verus!
