//! The four-valued voltage lattice and the rule by which the drivers of one
//! wire are resolved into the voltage that the wire carries.
use vstd::prelude::*;
use vstd::std_specs::convert::FromSpecImpl;

verus! {

/// The level of a wire or of a single driver.
///
/// A voltage is a pair of facts, "something pulls low" and "something pulls
/// high": `Floating` is neither, `Error` is both.
#[derive(Copy, Clone, Debug, PartialEq, Eq, Hash, Structural)]
pub enum Voltage {
    Floating,
    Low,
    High,
    Error,
}

/// What one component output puts on a wire: a level, weakly or strongly.
///
/// A resistor is a weak driver. It decides the wire only while no strong
/// driver does.
#[derive(Copy, Clone, Debug, PartialEq, Eq, Hash, Structural)]
pub struct VoltageInput {
    pub voltage: Voltage,
    pub resistor: bool,
}

impl Voltage {
    /// Whether something pulls low.
    pub open spec fn has_low(self) -> bool {
        self == Voltage::Low || self == Voltage::Error
    }

    /// Whether something pulls high.
    pub open spec fn has_high(self) -> bool {
        self == Voltage::High || self == Voltage::Error
    }

    /// The voltage with the given pair of facts.
    pub open spec fn from_drivers(low: bool, high: bool) -> Voltage {
        if low && high {
            Voltage::Error
        } else if high {
            Voltage::High
        } else if low {
            Voltage::Low
        } else {
            Voltage::Floating
        }
    }

    /// The two-bit code: bit 0 is "pulls low", bit 1 is "pulls high".
    pub open spec fn bits_spec(self) -> u8 {
        match self {
            Voltage::Floating => 0,
            Voltage::Low => 1,
            Voltage::High => 2,
            Voltage::Error => 3,
        }
    }

    /// Two voltages on one wire: whatever either pulls, the wire is pulled.
    pub open spec fn pull_spec(self, other: Voltage) -> Voltage {
        Voltage::from_drivers(
            self.has_low() || other.has_low(),
            self.has_high() || other.has_high(),
        )
    }

    /// Whether the voltage is a proper logic level, `Low` or `High`.
    pub open spec fn is_defined(self) -> bool {
        self == Voltage::Low || self == Voltage::High
    }

    /// The two-bit code of the voltage.
    pub fn bits(self) -> (code: u8)
        ensures
            code == self.bits_spec(),
            code < 4,
    {
        match self {
            Voltage::Floating => 0,
            Voltage::Low => 1,
            Voltage::High => 2,
            Voltage::Error => 3,
        }
    }

    /// The voltage with the given two-bit code.
    pub fn from_bits(code: u8) -> (v: Voltage)
        requires
            code < 4,
        ensures
            v.bits_spec() == code,
    {
        if code == 0 {
            Voltage::Floating
        } else if code == 1 {
            Voltage::Low
        } else if code == 2 {
            Voltage::High
        } else {
            Voltage::Error
        }
    }

    /// Resolves two voltages that meet on one wire: the bitwise OR of their
    /// codes.
    pub fn pull(self, other: Voltage) -> (v: Voltage)
        ensures
            v == self.pull_spec(other),
    {
        let a: u8 = self.bits();
        let b: u8 = other.bits();
        assert(a | b < 4 && (a | b == 0 <==> a == 0 && b == 0) && (a | b == 1 <==> (a == 0 || a
            == 1) && (b == 0 || b == 1) && a + b > 0) && (a | b == 2 <==> (a == 0 || a == 2) && (
        b == 0 || b == 2) && a + b > 0)) by (bit_vector)
            requires
                a < 4,
                b < 4,
        ;
        Voltage::from_bits(a | b)
    }
}

impl From<bool> for Voltage {
    /// `High` for `true`, `Low` for `false`.
    fn from(voltage: bool) -> (v: Voltage)
        ensures
            v == (if voltage { Voltage::High } else { Voltage::Low }),
    {
        if voltage {
            Voltage::High
        } else {
            Voltage::Low
        }
    }
}

impl FromSpecImpl<bool> for Voltage {
    open spec fn obeys_from_spec() -> bool {
        true
    }

    open spec fn from_spec(voltage: bool) -> Voltage {
        if voltage {
            Voltage::High
        } else {
            Voltage::Low
        }
    }
}

impl VoltageInput {
    /// The strong driver at the given level.
    pub open spec fn strong_spec(voltage: Voltage) -> VoltageInput {
        VoltageInput { voltage, resistor: false }
    }

    /// The strong driver of the level that stands for `bit`.
    pub open spec fn logic_spec(bit: bool) -> VoltageInput {
        VoltageInput { voltage: if bit { Voltage::High } else { Voltage::Low }, resistor: false }
    }

    /// The strong driver at the given level.
    #[verifier::when_used_as_spec(strong_spec)]
    pub fn strong(voltage: Voltage) -> (input: VoltageInput)
        ensures
            input == VoltageInput::strong_spec(voltage),
    {
        VoltageInput { voltage, resistor: false }
    }

    /// The strong driver of the level that stands for `bit`.
    #[verifier::when_used_as_spec(logic_spec)]
    pub fn logic(bit: bool) -> (input: VoltageInput)
        ensures
            input == VoltageInput::logic_spec(bit),
    {
        VoltageInput { voltage: if bit { Voltage::High } else { Voltage::Low }, resistor: false }
    }
}

impl From<Voltage> for VoltageInput {
    /// A strong driver at the given level.
    fn from(voltage: Voltage) -> (input: VoltageInput)
        ensures
            input == VoltageInput::strong(voltage),
    {
        VoltageInput { voltage, resistor: false }
    }
}

impl FromSpecImpl<Voltage> for VoltageInput {
    open spec fn obeys_from_spec() -> bool {
        true
    }

    open spec fn from_spec(voltage: Voltage) -> VoltageInput {
        VoltageInput { voltage, resistor: false }
    }
}

impl From<bool> for VoltageInput {
    /// A strong driver, `High` for `true` and `Low` for `false`.
    fn from(voltage: bool) -> (input: VoltageInput)
        ensures
            input == VoltageInput::logic(voltage),
    {
        VoltageInput { voltage: if voltage { Voltage::High } else { Voltage::Low }, resistor: false }
    }
}

impl FromSpecImpl<bool> for VoltageInput {
    open spec fn obeys_from_spec() -> bool {
        true
    }

    open spec fn from_spec(voltage: bool) -> VoltageInput {
        VoltageInput::logic(voltage)
    }
}

/// The pull of all strong drivers among `slots`, `Floating` if there is none.
pub open spec fn strong_pull(slots: Seq<VoltageInput>) -> Voltage
    decreases slots.len(),
{
    if slots.len() == 0 {
        Voltage::Floating
    } else if slots.last().resistor {
        strong_pull(slots.drop_last())
    } else {
        strong_pull(slots.drop_last()).pull_spec(slots.last().voltage)
    }
}

/// The pull of all resistors among `slots`, `Floating` if there is none.
pub open spec fn weak_pull(slots: Seq<VoltageInput>) -> Voltage
    decreases slots.len(),
{
    if slots.len() == 0 {
        Voltage::Floating
    } else if slots.last().resistor {
        weak_pull(slots.drop_last()).pull_spec(slots.last().voltage)
    } else {
        weak_pull(slots.drop_last())
    }
}

/// The voltage of a wire whose driver slots are `slots`: strong drivers
/// decide; where they leave the wire floating, the resistors do.
pub open spec fn resolution(slots: Seq<VoltageInput>) -> Voltage {
    if strong_pull(slots) == Voltage::Floating {
        weak_pull(slots)
    } else {
        strong_pull(slots)
    }
}

/// `pull` does not depend on the order of its operands.
pub proof fn lemma_pull_commutative(a: Voltage, b: Voltage)
    ensures
        a.pull_spec(b) == b.pull_spec(a),
{
}

/// `pull` may be grouped either way.
pub proof fn lemma_pull_associative(a: Voltage, b: Voltage, c: Voltage)
    ensures
        a.pull_spec(b.pull_spec(c)) == a.pull_spec(b).pull_spec(c),
{
}

/// Pulling a voltage against itself changes nothing.
pub proof fn lemma_pull_idempotent(a: Voltage)
    ensures
        a.pull_spec(a) == a,
{
}

/// `Floating` is the identity of `pull`.
pub proof fn lemma_pull_floating_identity(a: Voltage)
    ensures
        a.pull_spec(Voltage::Floating) == a,
        Voltage::Floating.pull_spec(a) == a,
{
}

/// `Error` absorbs every voltage under `pull`.
pub proof fn lemma_pull_error_absorbing(a: Voltage)
    ensures
        a.pull_spec(Voltage::Error) == Voltage::Error,
        Voltage::Error.pull_spec(a) == Voltage::Error,
{
}

/// The code of a pull is the bitwise OR of the codes.
pub proof fn lemma_pull_is_bitwise_or(a: Voltage, b: Voltage)
    ensures
        a.pull_spec(b).bits_spec() == a.bits_spec() | b.bits_spec(),
{
    let x = a.bits_spec();
    let y = b.bits_spec();
    assert(0u8 | 0u8 == 0u8 && 0u8 | 1u8 == 1u8 && 0u8 | 2u8 == 2u8 && 0u8 | 3u8 == 3u8 && 1u8
        | 0u8 == 1u8 && 1u8 | 1u8 == 1u8 && 1u8 | 2u8 == 3u8 && 1u8 | 3u8 == 3u8 && 2u8 | 0u8
        == 2u8 && 2u8 | 1u8 == 3u8 && 2u8 | 2u8 == 2u8 && 2u8 | 3u8 == 3u8 && 3u8 | 0u8 == 3u8
        && 3u8 | 1u8 == 3u8 && 3u8 | 2u8 == 3u8 && 3u8 | 3u8 == 3u8) by (bit_vector);
}

/// A wire without slots floats; one strong driver alone decides its wire.
pub proof fn lemma_resolution_single(input: VoltageInput)
    ensures
        resolution(Seq::<VoltageInput>::empty()) == Voltage::Floating,
        resolution(seq![input]) == input.voltage,
{
    let s = seq![input];
    assert(s.drop_last() =~= Seq::<VoltageInput>::empty());
    assert(s.last() == input);
    reveal_with_fuel(strong_pull, 2);
    reveal_with_fuel(weak_pull, 2);
}

} // verus!
