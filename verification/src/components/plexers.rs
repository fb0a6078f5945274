//! Multiplexers, demultiplexers and priority encoders.
//!
//! Each takes a number `select_bits` of address lines and handles two to the
//! `select_bits` data lines.
use vstd::prelude::*;
use vstd::arithmetic::power2::{pow2, lemma_pow2_pos};
use vstd::bits::{lemma_usize_shl_is_mul, lemma_usize_shr_is_div};
use crate::circuit::{overlay, Component, ComponentInterface};
use crate::components::drive::{
    bit_of, drive_prefix, drive_word, lemma_drive_prefix, lemma_single, level, single, write_rest,
};
use crate::components::select::{lemma_pow2_fits, lemma_selected_bound, read_select, selected};
use crate::voltage::{Voltage, VoltageInput};

verus! {

/// What the multiplexer drives for `inputs`: the data input that the
/// selector `inputs[0..select_bits]` names among `inputs[select_bits..]`,
/// `Error` where the selector spells no number.
pub open spec fn multiplexer_level(inputs: Seq<Voltage>, select_bits: int) -> Voltage {
    match selected(inputs, select_bits) {
        Some(index) => inputs[select_bits + index],
        None => Voltage::Error,
    }
}

/// A multiplexer: one of its data inputs, chosen by its address inputs,
/// goes to its output.
#[derive(Debug, Copy, Clone)]
pub struct Multiplexer {
    select_bits: u32,
}

impl Multiplexer {
    /// The number of address inputs.
    pub closed spec fn width(&self) -> nat {
        self.select_bits as nat
    }

    /// A multiplexer with `select_bits` address inputs.
    pub fn new(select_bits: u32) -> (multiplexer: Self)
        ensures
            multiplexer.width() == select_bits,
    {
        Self { select_bits }
    }

    /// The number of address inputs.
    pub fn select_bits(&self) -> (select_bits: u32)
        ensures
            select_bits == self.width(),
    {
        self.select_bits
    }
}

impl Component for Multiplexer {
    open spec fn accepts(&self, num_inputs: nat, num_outputs: nat) -> bool {
        num_inputs >= self.width() + pow2(self.width()) && num_outputs >= 1
    }

    open spec fn driven(&self, inputs: Seq<Voltage>, num_outputs: nat) -> Seq<
        Option<VoltageInput>,
    > {
        single(num_outputs, VoltageInput::strong(multiplexer_level(inputs, self.width() as int)))
    }

    fn update(&mut self, interface: &mut ComponentInterface)
        ensures
            final(interface).outputs() == overlay(
                old(interface).outputs(),
                final(self).driven(old(interface).inputs(), old(interface).outputs().len()),
            ),
            final(interface).tidy(old(interface)),
            *final(self) == *old(self),
    {
        proof {
            interface.lemma_untouched();
        }
        let select_bits: usize = self.select_bits as usize;
        let n: usize = interface.num_inputs();
        proof {
            lemma_selected_bound(interface.inputs(), select_bits as int);
            lemma_single(
                interface.outputs(),
                VoltageInput::strong(multiplexer_level(interface.inputs(), select_bits as int)),
            );
        }
        match read_select(interface, select_bits) {
            Some(index) => {
                let v = interface.input(select_bits + index);
                interface.output(0, VoltageInput::strong(v));
            },
            None => {
                interface.output(0, VoltageInput::strong(Voltage::Error));
            },
        }
    }

    fn tick(&mut self, _tick: u64) -> (fire: bool)
        ensures
            !fire,
            *final(self) == *old(self),
    {
        false
    }
}

/// What the demultiplexer drives for `inputs`: the data input
/// `inputs[select_bits]` on the output that the selector names and the idle
/// level on the others, `Error` everywhere where the selector spells no
/// number. The idle level is `Floating` for a three-state demultiplexer and
/// `Low` otherwise.
pub open spec fn demultiplexer_word(inputs: Seq<Voltage>, select_bits: int, three_state: bool) -> Seq<
    Voltage,
> {
    Seq::new(
        pow2(select_bits as nat),
        |j: int|
            match selected(inputs, select_bits) {
                Some(index) => if j == index {
                    inputs[select_bits]
                } else if three_state {
                    Voltage::Floating
                } else {
                    Voltage::Low
                },
                None => Voltage::Error,
            },
    )
}

/// A demultiplexer: its data input goes to the one of its outputs that its
/// address inputs choose.
#[derive(Debug, Copy, Clone)]
pub struct Demultiplexer {
    select_bits: u32,
    three_state: bool,
    changed: bool,
}

impl Demultiplexer {
    /// The number of address inputs.
    pub closed spec fn width(&self) -> nat {
        self.select_bits as nat
    }

    /// Whether the outputs that are not chosen float.
    pub closed spec fn floats(&self) -> bool {
        self.three_state
    }

    /// Whether the idle level was changed since the last update.
    pub closed spec fn changed(&self) -> bool {
        self.changed
    }

    /// The demultiplexer after an update: with the same settings, and
    /// nothing changed.
    pub closed spec fn rested(self) -> Demultiplexer {
        Demultiplexer { select_bits: self.select_bits, three_state: self.three_state, changed: false }
    }

    /// A demultiplexer with `select_bits` address inputs that drives `Low`
    /// on the outputs that are not chosen.
    pub fn new(select_bits: u32) -> (demultiplexer: Self)
        ensures
            demultiplexer.width() == select_bits,
            !demultiplexer.floats(),
            !demultiplexer.changed(),
    {
        Self { select_bits, three_state: false, changed: false }
    }

    /// The number of address inputs.
    pub fn select_bits(&self) -> (select_bits: u32)
        ensures
            select_bits == self.width(),
    {
        self.select_bits
    }

    /// Chooses whether the outputs that are not chosen float, from the next
    /// tick on.
    pub fn set_three_state(&mut self, three_state: bool) -> (demultiplexer: &mut Self)
        ensures
            demultiplexer.width() == old(self).width(),
            demultiplexer.floats() == three_state,
            demultiplexer.changed() == (old(self).changed() || three_state != old(self).floats()),
            *final(self) == *final(demultiplexer),
    {
        if self.three_state != three_state {
            self.three_state = three_state;
            self.changed = true;
        }
        self
    }

    /// Whether the outputs that are not chosen float.
    pub fn three_state(&self) -> (three_state: bool)
        ensures
            three_state == self.floats(),
    {
        self.three_state
    }
}

impl Component for Demultiplexer {
    open spec fn accepts(&self, num_inputs: nat, num_outputs: nat) -> bool {
        num_inputs >= self.width() + 1 && num_outputs >= pow2(self.width())
    }

    open spec fn driven(&self, inputs: Seq<Voltage>, num_outputs: nat) -> Seq<
        Option<VoltageInput>,
    > {
        drive_word(num_outputs, demultiplexer_word(inputs, self.width() as int, self.floats()))
    }

    fn update(&mut self, interface: &mut ComponentInterface)
        ensures
            final(interface).outputs() == overlay(
                old(interface).outputs(),
                final(self).driven(old(interface).inputs(), old(interface).outputs().len()),
            ),
            final(interface).tidy(old(interface)),
            final(self).width() == old(self).width(),
            final(self).floats() == old(self).floats(),
            !final(self).changed(),
            *final(self) == old(self).rested(),
    {
        proof {
            interface.lemma_untouched();
        }
        self.changed = false;
        let select_bits: usize = self.select_bits as usize;
        let m: usize = interface.num_outputs();
        let ghost base = interface.outputs();
        let ghost inputs = interface.inputs();
        let ghost word = demultiplexer_word(inputs, select_bits as int, self.three_state);
        proof {
            lemma_pow2_fits(select_bits as nat);
            lemma_pow2_pos(select_bits as nat);
            lemma_usize_shl_is_mul(1, select_bits);
            lemma_selected_bound(inputs, select_bits as int);
            assert(overlay(base, drive_prefix(base.len(), word, 0)) =~= base);
            assert(drive_prefix(base.len(), word, word.len() as int) =~= drive_word(
                base.len(),
                word,
            ));
        }
        let width: usize = 1usize << select_bits;
        let index: usize = match read_select(interface, select_bits) {
            Some(index) => index,
            None => {
                write_rest(interface, 0, width, Voltage::Error, Ghost(*old(interface)), Ghost(word));
                return ;
            },
        };
        let data = interface.input(select_bits);
        let mut j: usize = 0;
        while j < width
            invariant
                0 <= j <= width == word.len() <= base.len(),
                selected(inputs, select_bits as int) == Some(index as nat),
                data == inputs[select_bits as int],
                inputs == old(interface).inputs(),
                base == old(interface).outputs(),
                word == demultiplexer_word(inputs, select_bits as int, self.three_state),
                interface.wf(),
                interface.frame() == old(interface).frame(),
                interface.tidy(old(interface)),
                old(interface).wf(),
                interface.inputs() == inputs,
                interface.outputs() == overlay(base, drive_prefix(base.len(), word, j as int)),
            decreases width - j,
        {
            proof {
                lemma_drive_prefix(base, word, j as int);
            }
            if j == index {
                interface.output(j, VoltageInput::strong(data));
            } else if self.three_state {
                interface.output(j, VoltageInput::strong(Voltage::Floating));
            } else {
                interface.output(j, VoltageInput::strong(Voltage::Low));
            }
            j += 1;
        }
    }

    fn tick(&mut self, _tick: u64) -> (fire: bool)
        ensures
            fire == old(self).changed(),
            *final(self) == *old(self),
    {
        self.changed
    }
}

/// The highest of the first `n` of `inputs` that is asserted, if any:
/// `Some(Some(i))` for input `i`, `Some(None)` where none is asserted, and
/// `None` where an input without a logic level stands above every asserted
/// one. An input is asserted by `High`, or by `Low` for an inverted encoder.
pub open spec fn highest_asserted(inputs: Seq<Voltage>, inverted: bool, n: int) -> Option<
    Option<nat>,
>
    decreases n,
{
    if n <= 0 {
        Some(None)
    } else {
        match bit_of(inputs[n - 1]) {
            Some(bit) => if bit != inverted {
                Some(Some((n - 1) as nat))
            } else {
                highest_asserted(inputs, inverted, n - 1)
            },
            None => None,
        }
    }
}

/// What the priority encoder drives for `inputs`: on output 0 whether an
/// input is asserted, on the outputs behind it the index of the highest such
/// input in binary, or `Floating` where there is none. All is `Error` where
/// the highest asserted input cannot be told.
pub open spec fn priority_word(inputs: Seq<Voltage>, select_bits: int, inverted: bool) -> Seq<
    Voltage,
> {
    Seq::new(
        (select_bits + 1) as nat,
        |j: int|
            match highest_asserted(inputs, inverted, pow2(select_bits as nat) as int) {
                Some(Some(index)) => if j == 0 {
                    Voltage::High
                } else {
                    level((index / pow2((j - 1) as nat)) % 2 == 1)
                },
                Some(None) => if j == 0 {
                    Voltage::Low
                } else {
                    Voltage::Floating
                },
                None => Voltage::Error,
            },
    )
}

/// A priority encoder: it drives the index of the highest of its inputs
/// that is asserted.
#[derive(Debug, Copy, Clone)]
pub struct PriorityEncoder {
    select_bits: u32,
    inverted: bool,
    changed: bool,
}

impl PriorityEncoder {
    /// The number of index outputs.
    pub closed spec fn width(&self) -> nat {
        self.select_bits as nat
    }

    /// Whether `Low` asserts an input.
    pub closed spec fn active_low(&self) -> bool {
        self.inverted
    }

    /// Whether the asserting level was changed since the last update.
    pub closed spec fn changed(&self) -> bool {
        self.changed
    }

    /// The encoder after an update: with the same settings, and nothing
    /// changed.
    pub closed spec fn rested(self) -> PriorityEncoder {
        PriorityEncoder { select_bits: self.select_bits, inverted: self.inverted, changed: false }
    }

    /// A priority encoder with `select_bits` index outputs whose inputs are
    /// asserted by `High`.
    pub fn new(select_bits: u32) -> (encoder: Self)
        ensures
            encoder.width() == select_bits,
            !encoder.active_low(),
            !encoder.changed(),
    {
        Self { select_bits, inverted: false, changed: false }
    }

    /// The number of index outputs.
    pub fn select_bits(&self) -> (select_bits: u32)
        ensures
            select_bits == self.width(),
    {
        self.select_bits
    }

    /// Chooses whether `Low` asserts an input, from the next tick on.
    pub fn set_inverted(&mut self, inverted: bool) -> (encoder: &mut Self)
        ensures
            encoder.width() == old(self).width(),
            encoder.active_low() == inverted,
            encoder.changed() == (old(self).changed() || inverted != old(self).active_low()),
            *final(self) == *final(encoder),
    {
        if inverted != self.inverted {
            self.inverted = inverted;
            self.changed = true;
        }
        self
    }

    /// Whether `Low` asserts an input.
    pub fn inverted(&self) -> (inverted: bool)
        ensures
            inverted == self.active_low(),
    {
        self.inverted
    }
}

impl Component for PriorityEncoder {
    open spec fn accepts(&self, num_inputs: nat, num_outputs: nat) -> bool {
        num_inputs >= pow2(self.width()) && num_outputs >= self.width() + 1
    }

    open spec fn driven(&self, inputs: Seq<Voltage>, num_outputs: nat) -> Seq<
        Option<VoltageInput>,
    > {
        drive_word(num_outputs, priority_word(inputs, self.width() as int, self.active_low()))
    }

    fn update(&mut self, interface: &mut ComponentInterface)
        ensures
            final(interface).outputs() == overlay(
                old(interface).outputs(),
                final(self).driven(old(interface).inputs(), old(interface).outputs().len()),
            ),
            final(interface).tidy(old(interface)),
            final(self).width() == old(self).width(),
            final(self).active_low() == old(self).active_low(),
            !final(self).changed(),
            *final(self) == old(self).rested(),
    {
        proof {
            interface.lemma_untouched();
        }
        self.changed = false;
        let select_bits: usize = self.select_bits as usize;
        let n: usize = interface.num_inputs();
        let m: usize = interface.num_outputs();
        let ghost base = interface.outputs();
        let ghost inputs = interface.inputs();
        let ghost word = priority_word(inputs, select_bits as int, self.inverted);
        proof {
            lemma_pow2_fits(select_bits as nat);
            lemma_pow2_pos(select_bits as nat);
            lemma_usize_shl_is_mul(1, select_bits);
            lemma_drive_prefix(base, word, 0);
        }
        let width: usize = 1usize << select_bits;
        let mut maybe_index: Option<usize> = None;
        let mut i: usize = width;
        while i > 0
            invariant_except_break
                maybe_index is None,
                highest_asserted(inputs, self.inverted, width as int) == highest_asserted(
                    inputs,
                    self.inverted,
                    i as int,
                ),
            invariant
                0 <= i <= width <= inputs.len(),
                width == pow2(select_bits as nat),
                select_bits < base.len() <= usize::MAX,
                select_bits == self.select_bits == old(self).select_bits,
                self.inverted == old(self).inverted,
                !self.changed,
                inputs == old(interface).inputs(),
                base == old(interface).outputs(),
                word == priority_word(inputs, select_bits as int, self.inverted),
                interface == old(interface),
                interface.wf(),
                interface.outputs() == overlay(base, drive_prefix(base.len(), word, 0)),
            ensures
                highest_asserted(inputs, self.inverted, width as int) == (match maybe_index {
                    Some(index) => Some(Some(index as nat)),
                    None => Some(None::<nat>),
                }),
                maybe_index matches Some(index) ==> index < width,
            decreases i,
        {
            i -= 1;
            match interface.input(i) {
                Voltage::Low => {
                    if self.inverted {
                        maybe_index = Some(i);
                        break ;
                    }
                },
                Voltage::High => {
                    if !self.inverted {
                        maybe_index = Some(i);
                        break ;
                    }
                },
                _ => {
                    proof {
                        interface.lemma_untouched();
                    }
                    write_rest(
                        interface,
                        0,
                        select_bits + 1,
                        Voltage::Error,
                        Ghost(*old(interface)),
                        Ghost(word),
                    );
                    return ;
                },
            }
        }
        if let Some(index) = maybe_index {
            interface.output(0, VoltageInput::strong(Voltage::High));
            let mut j: usize = 0;
            while j < select_bits
                invariant
                    0 <= j <= select_bits < base.len(),
                    select_bits < usize::BITS,
                    highest_asserted(inputs, self.inverted, pow2(select_bits as nat) as int)
                        == Some(Some(index as nat)),
                    inputs == old(interface).inputs(),
                    base == old(interface).outputs(),
                    word == priority_word(inputs, select_bits as int, self.inverted),
                    interface.wf(),
                    interface.frame() == old(interface).frame(),
                    interface.tidy(old(interface)),
                    old(interface).wf(),
                old(interface).wf(),
                interface.tidy(old(interface)),
                old(interface).wf(),
                    interface.inputs() == inputs,
                    interface.outputs() == overlay(
                        base,
                        drive_prefix(base.len(), word, 1 + j as int),
                    ),
                decreases select_bits - j,
            {
                proof {
                    lemma_drive_prefix(base, word, 1 + j as int);
                    lemma_usize_shr_is_div(index, j);
                }
                let shifted: usize = index >> j;
                assert(shifted & 1 == shifted % 2) by (bit_vector);
                interface.output(1 + j, VoltageInput::logic(shifted & 1 == 1));
                j += 1;
            }
        } else {
            interface.output(0, VoltageInput::strong(Voltage::Low));
            write_rest(
                interface,
                1,
                select_bits + 1,
                Voltage::Floating,
                Ghost(*old(interface)), Ghost(word),
            );
        }
    }

    fn tick(&mut self, _tick: u64) -> (fire: bool)
        ensures
            fire == old(self).changed(),
            *final(self) == *old(self),
    {
        self.changed
    }
}

} // verus!
