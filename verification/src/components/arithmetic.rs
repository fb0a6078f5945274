//! Arithmetic on binary words, least significant bit first.
//!
//! Every block here takes the width of its operands from the number of its
//! inputs. An input that carries no logic level spoils every output that
//! depends on it.
use vstd::prelude::*;
use vstd::arithmetic::div_mod::{lemma_div_denominator, lemma_fundamental_div_mod_converse};
use vstd::arithmetic::power2::{pow2, lemma_pow2_pos, lemma_pow2_unfold, lemma2_to64};
use vstd::bits::lemma_usize_shl_is_mul;
use crate::circuit::{overlay, Component, ComponentInterface};
use crate::components::drive::{
    bit_of, drive_prefix, drive_word, lemma_drive_prefix, level, level_or_error, write_rest,
    write_three, write_two,
};
use crate::gates::{and_of, xor_of, AndFn, BinaryGateFn, XorFn};
use crate::components::select::{lemma_pow2_fits, lemma_selected_bound, read_select, selected};
use crate::voltage::{Voltage, VoltageInput};

verus! {

/// The carry into bit `i` of the sum of the two `bits`-bit words and the
/// carry-in that `inputs` holds.
///
/// The first word is `inputs[0..bits]`, the second `inputs[bits..2 * bits]`,
/// the carry-in `inputs[2 * bits]`. There is no carry where the carry-in or
/// a bit below `i` carries no logic level.
pub open spec fn adder_carry(inputs: Seq<Voltage>, bits: int, i: int) -> Option<bool>
    decreases i,
{
    if i <= 0 {
        bit_of(inputs[2 * bits])
    } else {
        match (
            adder_carry(inputs, bits, i - 1),
            bit_of(inputs[i - 1]),
            bit_of(inputs[bits + i - 1]),
        ) {
            (Some(c), Some(a), Some(b)) => Some((a && b) || (c && (a || b))),
            _ => None,
        }
    }
}

/// Bit `j` of what the adder drives: a sum bit below `bits`, the carry-out
/// at `bits`. It is `Error` from the first bit on that meets an input
/// without a logic level.
pub open spec fn adder_bit(inputs: Seq<Voltage>, bits: int, j: int) -> Voltage {
    if j < bits {
        match (adder_carry(inputs, bits, j), bit_of(inputs[j]), bit_of(inputs[bits + j])) {
            (Some(c), Some(a), Some(b)) => level(a != (b != c)),
            _ => Voltage::Error,
        }
    } else {
        level_or_error(adder_carry(inputs, bits, bits))
    }
}

/// What the adder drives for `inputs`: the sum word and the carry-out.
pub open spec fn adder_word(inputs: Seq<Voltage>) -> Seq<Voltage> {
    let bits = (inputs.len() / 2) as int;
    Seq::new((bits + 1) as nat, |j: int| adder_bit(inputs, bits, j))
}

/// A ripple-carry adder of two words and a carry-in.
///
/// With `2 * n + 1` inputs it adds `inputs[0..n]`, `inputs[n..2 * n]` and
/// the carry-in `inputs[2 * n]`, and drives the sum on outputs `0..n` and the
/// carry-out on output `n`.
#[derive(Debug, Copy, Clone, Default)]
pub struct Adder;

impl Adder {
    /// An adder.
    pub fn new() -> (adder: Self) {
        Adder
    }
}

impl Component for Adder {
    open spec fn accepts(&self, num_inputs: nat, num_outputs: nat) -> bool {
        num_inputs % 2 == 1 && num_outputs > num_inputs / 2
    }

    open spec fn driven(&self, inputs: Seq<Voltage>, num_outputs: nat) -> Seq<
        Option<VoltageInput>,
    > {
        drive_word(num_outputs, adder_word(inputs))
    }

    fn update(&mut self, interface: &mut ComponentInterface)
        ensures
            final(interface).outputs() == overlay(
                old(interface).outputs(),
                final(self).driven(old(interface).inputs(), old(interface).outputs().len()),
            ),
            final(interface).tidy(old(interface)),
            *final(self) == *old(self),
    {
        proof {
            interface.lemma_untouched();
        }
        let n: usize = interface.num_inputs();
        let bits: usize = n / 2;
        let ghost base = interface.outputs();
        let ghost inputs = interface.inputs();
        let ghost word = adder_word(inputs);
        proof {
            lemma_drive_prefix(base, word, 0);
        }
        let carry_voltage = interface.input(bits * 2);
        let mut carry: bool = match carry_voltage {
            Voltage::Low => false,
            Voltage::High => true,
            _ => {
                assert forall|j: int| 0 <= j < bits + 1 implies word[j] == Voltage::Error by {
                    lemma_adder_spoiled(inputs, bits as int, 0, j);
                }
                write_rest(interface, 0, bits + 1, Voltage::Error, Ghost(*old(interface)), Ghost(word));
                return ;
            },
        };
        let mut i: usize = 0;
        while i < bits
            invariant
                0 <= i <= bits,
                bits == n / 2,
                n == inputs.len() == 2 * bits + 1,
                inputs == old(interface).inputs(),
                base == old(interface).outputs(),
                word == adder_word(inputs),
                base.len() > bits,
                interface.wf(),
                interface.frame() == old(interface).frame(),
                interface.tidy(old(interface)),
                old(interface).wf(),
                interface.inputs() == inputs,
                interface.outputs() == overlay(base, drive_prefix(base.len(), word, i as int)),
                adder_carry(inputs, bits as int, i as int) == Some(carry),
            decreases bits - i,
        {
            let a = interface.input(i);
            let b = interface.input(bits + i);
            let (x, y): (bool, bool) = match (a, b) {
                (Voltage::Low, Voltage::Low) => (false, carry),
                (Voltage::Low, Voltage::High) | (Voltage::High, Voltage::Low) => (carry, !carry),
                (Voltage::High, Voltage::High) => (true, carry),
                _ => {
                    assert forall|j: int| i <= j < bits + 1 implies word[j] == Voltage::Error by {
                        lemma_adder_spoiled(inputs, bits as int, i as int + 1, j);
                    }
                    write_rest(interface, i, bits + 1, Voltage::Error, Ghost(*old(interface)), Ghost(word));
                    return ;
                },
            };
            proof {
                lemma_drive_prefix(base, word, i as int);
            }
            interface.output(i, VoltageInput::logic(y));
            carry = x;
            i += 1;
        }
        proof {
            lemma_drive_prefix(base, word, bits as int);
        }
        interface.output(bits, VoltageInput::logic(carry));
    }
}

/// Once the carry chain of the adder has met an input without a logic
/// level, it carries nothing further up, and every bit from there on is
/// `Error`.
pub proof fn lemma_adder_spoiled(inputs: Seq<Voltage>, bits: int, i: int, j: int)
    requires
        0 <= i <= bits,
        adder_carry(inputs, bits, i) is None,
        i - 1 <= j <= bits,
        0 <= j,
    ensures
        adder_bit(inputs, bits, j) == Voltage::Error,
        i <= j ==> adder_carry(inputs, bits, j) is None,
    decreases j - i,
{
    if i < j {
        lemma_adder_spoiled(inputs, bits, i, j - 1);
    }
}

/// The borrow into bit `i` of the difference of the two `bits`-bit words
/// and the borrow-in that `inputs` holds.
///
/// The minuend is `inputs[0..bits]`, the subtrahend `inputs[bits..2 * bits]`,
/// the borrow-in `inputs[2 * bits]`. There is no borrow where the borrow-in
/// or a bit below `i` carries no logic level.
pub open spec fn subtractor_borrow(inputs: Seq<Voltage>, bits: int, i: int) -> Option<bool>
    decreases i,
{
    if i <= 0 {
        bit_of(inputs[2 * bits])
    } else {
        match (
            subtractor_borrow(inputs, bits, i - 1),
            bit_of(inputs[i - 1]),
            bit_of(inputs[bits + i - 1]),
        ) {
            (Some(c), Some(a), Some(b)) => Some((!a && b) || (c && (a == b))),
            _ => None,
        }
    }
}

/// Bit `j` of what the subtractor drives: a difference bit below `bits`, the
/// borrow-out at `bits`. It is `Error` from the first bit on that meets an
/// input without a logic level.
pub open spec fn subtractor_bit(inputs: Seq<Voltage>, bits: int, j: int) -> Voltage {
    if j < bits {
        match (subtractor_borrow(inputs, bits, j), bit_of(inputs[j]), bit_of(inputs[bits + j])) {
            (Some(c), Some(a), Some(b)) => level(a != (b != c)),
            _ => Voltage::Error,
        }
    } else {
        level_or_error(subtractor_borrow(inputs, bits, bits))
    }
}

/// What the subtractor drives for `inputs`: the difference word and the
/// borrow-out.
pub open spec fn subtractor_word(inputs: Seq<Voltage>) -> Seq<Voltage> {
    let bits = (inputs.len() / 2) as int;
    Seq::new((bits + 1) as nat, |j: int| subtractor_bit(inputs, bits, j))
}

/// Once the borrow chain of the subtractor has met an input without a logic
/// level, it carries nothing further up, and every bit from there on is
/// `Error`.
pub proof fn lemma_subtractor_spoiled(inputs: Seq<Voltage>, bits: int, i: int, j: int)
    requires
        0 <= i <= bits,
        subtractor_borrow(inputs, bits, i) is None,
        i - 1 <= j <= bits,
        0 <= j,
    ensures
        subtractor_bit(inputs, bits, j) == Voltage::Error,
        i <= j ==> subtractor_borrow(inputs, bits, j) is None,
    decreases j - i,
{
    if i < j {
        lemma_subtractor_spoiled(inputs, bits, i, j - 1);
    }
}

/// A ripple-borrow subtractor of two words and a borrow-in.
///
/// With `2 * n + 1` inputs it subtracts `inputs[n..2 * n]` and the borrow-in
/// `inputs[2 * n]` from `inputs[0..n]`, and drives the difference on outputs
/// `0..n` and the borrow-out on output `n`.
#[derive(Debug, Copy, Clone, Default)]
pub struct Subtractor;

impl Subtractor {
    /// A subtractor.
    pub fn new() -> (subtractor: Self) {
        Subtractor
    }
}

impl Component for Subtractor {
    open spec fn accepts(&self, num_inputs: nat, num_outputs: nat) -> bool {
        num_inputs % 2 == 1 && num_outputs > num_inputs / 2
    }

    open spec fn driven(&self, inputs: Seq<Voltage>, num_outputs: nat) -> Seq<
        Option<VoltageInput>,
    > {
        drive_word(num_outputs, subtractor_word(inputs))
    }

    fn update(&mut self, interface: &mut ComponentInterface)
        ensures
            final(interface).outputs() == overlay(
                old(interface).outputs(),
                final(self).driven(old(interface).inputs(), old(interface).outputs().len()),
            ),
            final(interface).tidy(old(interface)),
            *final(self) == *old(self),
    {
        proof {
            interface.lemma_untouched();
        }
        let n: usize = interface.num_inputs();
        let bits: usize = n / 2;
        let ghost base = interface.outputs();
        let ghost inputs = interface.inputs();
        let ghost word = subtractor_word(inputs);
        proof {
            lemma_drive_prefix(base, word, 0);
        }
        let borrow_voltage = interface.input(bits * 2);
        let mut borrow: bool = match borrow_voltage {
            Voltage::Low => false,
            Voltage::High => true,
            _ => {
                assert forall|j: int| 0 <= j < bits + 1 implies word[j] == Voltage::Error by {
                    lemma_subtractor_spoiled(inputs, bits as int, 0, j);
                }
                write_rest(interface, 0, bits + 1, Voltage::Error, Ghost(*old(interface)), Ghost(word));
                return ;
            },
        };
        let mut i: usize = 0;
        while i < bits
            invariant
                0 <= i <= bits,
                bits == n / 2,
                n == inputs.len() == 2 * bits + 1,
                inputs == old(interface).inputs(),
                base == old(interface).outputs(),
                word == subtractor_word(inputs),
                base.len() > bits,
                interface.wf(),
                interface.frame() == old(interface).frame(),
                interface.tidy(old(interface)),
                old(interface).wf(),
                interface.inputs() == inputs,
                interface.outputs() == overlay(base, drive_prefix(base.len(), word, i as int)),
                subtractor_borrow(inputs, bits as int, i as int) == Some(borrow),
            decreases bits - i,
        {
            let a = interface.input(i);
            let b = interface.input(bits + i);
            let (x, y): (bool, bool) = match (a, b) {
                (Voltage::Low, Voltage::High) => (true, !borrow),
                (Voltage::Low, Voltage::Low) | (Voltage::High, Voltage::High) => (borrow, borrow),
                (Voltage::High, Voltage::Low) => (false, !borrow),
                _ => {
                    assert forall|j: int| i <= j < bits + 1 implies word[j] == Voltage::Error by {
                        lemma_subtractor_spoiled(inputs, bits as int, i as int + 1, j);
                    }
                    write_rest(interface, i, bits + 1, Voltage::Error, Ghost(*old(interface)), Ghost(word));
                    return ;
                },
            };
            proof {
                lemma_drive_prefix(base, word, i as int);
            }
            interface.output(i, VoltageInput::logic(y));
            borrow = x;
            i += 1;
        }
        proof {
            lemma_drive_prefix(base, word, bits as int);
        }
        interface.output(bits, VoltageInput::logic(borrow));
    }
}

/// The borrow into bit `i` when the word `inputs` is subtracted from zero.
/// There is no borrow where a bit below `i` carries no logic level.
pub open spec fn negator_borrow(inputs: Seq<Voltage>, i: int) -> Option<bool>
    decreases i,
{
    if i <= 0 {
        Some(false)
    } else {
        match (negator_borrow(inputs, i - 1), bit_of(inputs[i - 1])) {
            (Some(c), Some(b)) => Some(b || c),
            _ => None,
        }
    }
}

/// Bit `j` of the two's complement of the word `inputs`, `Error` from the
/// first bit on that carries no logic level.
pub open spec fn negator_bit(inputs: Seq<Voltage>, j: int) -> Voltage {
    match (negator_borrow(inputs, j), bit_of(inputs[j])) {
        (Some(c), Some(b)) => level(b != c),
        _ => Voltage::Error,
    }
}

/// What the negator drives for `inputs`: the two's complement, bit by bit.
pub open spec fn negator_word(inputs: Seq<Voltage>) -> Seq<Voltage> {
    Seq::new(inputs.len(), |j: int| negator_bit(inputs, j))
}

/// Once the borrow chain of the negator has met an input without a logic
/// level, every bit from there on is `Error`.
pub proof fn lemma_negator_spoiled(inputs: Seq<Voltage>, i: int, j: int)
    requires
        0 <= i,
        negator_borrow(inputs, i) is None,
        i - 1 <= j,
        0 <= j,
    ensures
        negator_bit(inputs, j) == Voltage::Error,
        i <= j ==> negator_borrow(inputs, j) is None,
    decreases j - i,
{
    if i < j {
        lemma_negator_spoiled(inputs, i, j - 1);
    }
}

/// A block that drives the two's complement of its input word.
#[derive(Debug, Copy, Clone, Default)]
pub struct Negator;

impl Negator {
    /// A negator.
    pub fn new() -> (negator: Self) {
        Negator
    }
}

impl Component for Negator {
    open spec fn accepts(&self, num_inputs: nat, num_outputs: nat) -> bool {
        num_outputs >= num_inputs
    }

    open spec fn driven(&self, inputs: Seq<Voltage>, num_outputs: nat) -> Seq<
        Option<VoltageInput>,
    > {
        drive_word(num_outputs, negator_word(inputs))
    }

    fn update(&mut self, interface: &mut ComponentInterface)
        ensures
            final(interface).outputs() == overlay(
                old(interface).outputs(),
                final(self).driven(old(interface).inputs(), old(interface).outputs().len()),
            ),
            final(interface).tidy(old(interface)),
            *final(self) == *old(self),
    {
        proof {
            interface.lemma_untouched();
        }
        let bits: usize = interface.num_inputs();
        let ghost base = interface.outputs();
        let ghost inputs = interface.inputs();
        let ghost word = negator_word(inputs);
        let mut borrow: bool = false;
        let mut i: usize = 0;
        proof {
            assert(overlay(base, drive_prefix(base.len(), word, 0)) =~= base);
            assert(drive_prefix(base.len(), word, word.len() as int) =~= drive_word(
                base.len(),
                word,
            ));
        }
        while i < bits
            invariant
                0 <= i <= bits,
                bits == inputs.len(),
                inputs == old(interface).inputs(),
                base == old(interface).outputs(),
                word == negator_word(inputs),
                base.len() >= bits,
                interface.wf(),
                interface.frame() == old(interface).frame(),
                interface.tidy(old(interface)),
                old(interface).wf(),
                interface.inputs() == inputs,
                interface.outputs() == overlay(base, drive_prefix(base.len(), word, i as int)),
                negator_borrow(inputs, i as int) == Some(borrow),
            decreases bits - i,
        {
            let b = interface.input(i);
            let (x, y): (bool, bool) = match b {
                Voltage::High => (true, !borrow),
                Voltage::Low => (borrow, borrow),
                _ => {
                    assert forall|j: int| i <= j < bits implies word[j] == Voltage::Error by {
                        lemma_negator_spoiled(inputs, i as int + 1, j);
                    }
                    write_rest(interface, i, bits, Voltage::Error, Ghost(*old(interface)), Ghost(word));
                    return ;
                },
            };
            proof {
                lemma_drive_prefix(base, word, i as int);
            }
            interface.output(i, VoltageInput::logic(y));
            borrow = x;
            i += 1;
        }
    }
}

/// What one product bit adds to its column, and whether it spoils the
/// column: nothing where either factor bit is `Low`, one where both are
/// `High`, and one that spoils where a factor bit carries no logic level.
pub open spec fn product_bit(a: Voltage, b: Voltage) -> (nat, bool) {
    if a == Voltage::Low || b == Voltage::Low {
        (0, false)
    } else if a == Voltage::High && b == Voltage::High {
        (1, false)
    } else {
        (1, true)
    }
}

/// What one addend bit adds to its column, and whether it spoils the column.
pub open spec fn addend_bit(c: Voltage) -> (nat, bool) {
    match c {
        Voltage::Low => (0, false),
        Voltage::High => (1, false),
        _ => (1, true),
    }
}

/// The first index `j` into the first factor that has a partner `i - j` in
/// the second for column `i`.
pub open spec fn column_start(bits: int, i: int) -> int {
    if i < bits {
        0
    } else {
        i - bits + 1
    }
}

/// One past the last index into the first factor that has a partner in the
/// second for column `i`.
pub open spec fn column_end(bits: int, i: int) -> int {
    if i < bits {
        i + 1
    } else {
        bits
    }
}

/// The sum of the product bits `a[j] * b[i - j]` of column `i` for `j` below
/// `end`, and whether one of them spoils.
pub open spec fn column_products(inputs: Seq<Voltage>, bits: int, i: int, end: int) -> (nat, bool)
    decreases end,
{
    if end <= column_start(bits, i) {
        (0, false)
    } else {
        let (sum, spoiled) = column_products(inputs, bits, i, end - 1);
        let (p, s) = product_bit(inputs[end - 1], inputs[bits + i - (end - 1)]);
        (sum + p, spoiled || s)
    }
}

/// The sum of column `i` of the multiplication: its product bits and, in
/// the low half, its addend bit; and whether anything in it spoils.
pub open spec fn column(inputs: Seq<Voltage>, bits: int, i: int) -> (nat, bool) {
    let (sum, spoiled) = column_products(inputs, bits, i, column_end(bits, i));
    if i < bits {
        let (c, s) = addend_bit(inputs[2 * bits + i]);
        (sum + c, spoiled || s)
    } else {
        (sum, spoiled)
    }
}

/// The carry into column `i`, and whether an error is latched there: a
/// spoiled column latches the error until the carry runs out.
pub open spec fn multiplier_carry(inputs: Seq<Voltage>, bits: int, i: int) -> (nat, bool)
    decreases i,
{
    if i <= 0 {
        (0, false)
    } else {
        let (carry, latched) = multiplier_carry(inputs, bits, i - 1);
        let (sum, spoiled) = column(inputs, bits, i - 1);
        let next = (carry + sum) / 2;
        (next, next != 0 && (latched || spoiled))
    }
}

/// Bit `i` of what the multiplier drives: the low bit of the column sum with
/// its carry, `Error` where the column is spoiled or an error is latched.
pub open spec fn multiplier_bit(inputs: Seq<Voltage>, bits: int, i: int) -> Voltage {
    let (carry, latched) = multiplier_carry(inputs, bits, i);
    let (sum, spoiled) = column(inputs, bits, i);
    if latched || spoiled {
        Voltage::Error
    } else {
        level((carry + sum) % 2 == 1)
    }
}

/// What the multiplier drives for `inputs`: a word twice as wide as a
/// factor.
pub open spec fn multiplier_word(inputs: Seq<Voltage>) -> Seq<Voltage> {
    let bits = (inputs.len() / 3) as int;
    Seq::new((2 * bits) as nat, |i: int| multiplier_bit(inputs, bits, i))
}

/// Neither a column nor a carry exceeds the width of a factor by more than
/// one.
pub proof fn lemma_multiplier_bounds(inputs: Seq<Voltage>, bits: int, i: int)
    requires
        0 <= i,
        0 <= bits,
    ensures
        column(inputs, bits, i).0 <= bits + 1,
        multiplier_carry(inputs, bits, i).0 <= bits + 1,
    decreases i,
{
    lemma_column_bound(inputs, bits, i, column_end(bits, i));
    if i > 0 {
        lemma_multiplier_bounds(inputs, bits, i - 1);
    }
}

/// The product bits of a column below `end` sum to no more than their
/// number.
pub proof fn lemma_column_bound(inputs: Seq<Voltage>, bits: int, i: int, end: int)
    requires
        0 <= i,
        0 <= bits,
    ensures
        column_products(inputs, bits, i, end).0 <= if end <= column_start(bits, i) {
            0
        } else {
            end - column_start(bits, i)
        },
    decreases end,
{
    if end > column_start(bits, i) {
        lemma_column_bound(inputs, bits, i, end - 1);
    }
}

/// A multiplier of two words with an addend, by the schoolbook method.
///
/// With `3 * n` inputs it multiplies `inputs[0..n]` by `inputs[n..2 * n]`,
/// adds `inputs[2 * n..3 * n]`, and drives the result on outputs `0..2 * n`.
/// An input bit without a logic level counts as one and spoils its column;
/// the error stays latched until the carry has run out.
#[derive(Debug, Copy, Clone, Default)]
pub struct Multiplier;

impl Multiplier {
    /// A multiplier.
    pub fn new() -> (multiplier: Self) {
        Multiplier
    }

    /// Adds the product bits `j` in `from..to` of column `i` to `carry`.
    fn add_products(
        interface: &ComponentInterface,
        bits: usize,
        i: usize,
        from: usize,
        to: usize,
        carry: usize,
        has_error: bool,
    ) -> (r: (usize, bool))
        requires
            interface.wf(),
            3 * bits <= interface.inputs().len() <= usize::MAX,
            i < 2 * bits,
            from == column_start(bits as int, i as int),
            to == column_end(bits as int, i as int),
            carry <= bits + 2,
        ensures
            r.0 == carry + column_products(interface.inputs(), bits as int, i as int, to as int).0,
            r.1 == (has_error || column_products(
                interface.inputs(),
                bits as int,
                i as int,
                to as int,
            ).1),
    {
        let mut carry: usize = carry;
        let mut has_error: bool = has_error;
        let ghost entry_carry = carry;
        let ghost entry_error = has_error;
        let ghost inputs = interface.inputs();
        let mut j: usize = from;
        while j < to
            invariant
                from <= j <= to <= bits,
                from == column_start(bits as int, i as int),
                i < 2 * bits,
                to <= i + 1,
                3 * bits <= inputs.len() <= usize::MAX,
                inputs == interface.inputs(),
                interface.wf(),
                entry_carry <= bits + 2,
                carry == entry_carry + column_products(inputs, bits as int, i as int, j as int).0,
                column_products(inputs, bits as int, i as int, j as int).0 <= j - from,
                has_error == (entry_error || column_products(
                    inputs,
                    bits as int,
                    i as int,
                    j as int,
                ).1),
            decreases to - j,
        {
            let k: usize = i - j;
            let a = interface.input(j);
            let b = interface.input(bits + k);
            match (a, b) {
                (Voltage::Low, _) | (_, Voltage::Low) => {},
                (Voltage::High, Voltage::High) => {
                    carry += 1;
                },
                _ => {
                    has_error = true;
                    carry += 1;
                },
            }
            j += 1;
        }
        (carry, has_error)
    }
}

impl Component for Multiplier {
    open spec fn accepts(&self, num_inputs: nat, num_outputs: nat) -> bool {
        num_outputs >= 2 * (num_inputs / 3)
    }

    open spec fn driven(&self, inputs: Seq<Voltage>, num_outputs: nat) -> Seq<
        Option<VoltageInput>,
    > {
        drive_word(num_outputs, multiplier_word(inputs))
    }

    fn update(&mut self, interface: &mut ComponentInterface)
        ensures
            final(interface).outputs() == overlay(
                old(interface).outputs(),
                final(self).driven(old(interface).inputs(), old(interface).outputs().len()),
            ),
            final(interface).tidy(old(interface)),
            *final(self) == *old(self),
    {
        proof {
            interface.lemma_untouched();
        }
        let n: usize = interface.num_inputs();
        let bits: usize = n / 3;
        let ghost base = interface.outputs();
        let ghost inputs = interface.inputs();
        let ghost word = multiplier_word(inputs);
        let mut carry: usize = 0;
        let mut has_error: bool = false;
        proof {
            assert(overlay(base, drive_prefix(base.len(), word, 0)) =~= base);
            assert(drive_prefix(base.len(), word, word.len() as int) =~= drive_word(
                base.len(),
                word,
            ));
        }
        let mut i: usize = 0;
        while i < 2 * bits
            invariant
                0 <= i <= 2 * bits,
                bits == n / 3,
                n == inputs.len(),
                inputs == old(interface).inputs(),
                base == old(interface).outputs(),
                word == multiplier_word(inputs),
                base.len() >= 2 * bits,
                interface.wf(),
                interface.frame() == old(interface).frame(),
                interface.tidy(old(interface)),
                old(interface).wf(),
                interface.inputs() == inputs,
                interface.outputs() == overlay(base, drive_prefix(base.len(), word, i as int)),
                (carry as nat, has_error) == multiplier_carry(inputs, bits as int, i as int),
            decreases 2 * bits - i,
        {
            proof {
                lemma_multiplier_bounds(inputs, bits as int, i as int);
                lemma_multiplier_bounds(inputs, bits as int, i as int + 1);
                lemma_drive_prefix(base, word, i as int);
            }
            let from: usize = if i < bits {
                carry += match interface.input(bits * 2 + i) {
                    Voltage::Low => 0,
                    Voltage::High => 1,
                    _ => {
                        has_error = true;
                        1
                    },
                };
                0
            } else {
                i - bits + 1
            };
            let to: usize = if i < bits {
                i + 1
            } else {
                bits
            };
            let (sum, spoiled) = Multiplier::add_products(
                interface,
                bits,
                i,
                from,
                to,
                carry,
                has_error,
            );
            carry = sum;
            has_error = spoiled;
            assert(carry & 1 == carry % 2 && carry >> 1 == carry / 2) by (bit_vector);
            if has_error {
                interface.output(i, VoltageInput::strong(Voltage::Error));
            } else {
                interface.output(i, VoltageInput::logic(carry & 1 == 1));
            }
            carry >>= 1;
            if carry == 0 {
                has_error = false;
            }
            i += 1;
        }
    }
}

/// What a comparison of two words has found after some of their bits, from
/// the most significant down.
#[derive(Copy, Clone, Debug, PartialEq, Eq, Structural)]
pub enum Relation {
    /// The first word is the smaller.
    Less,
    /// The bits seen are the same in both words.
    Equal,
    /// The first word is the greater.
    Greater,
    /// A bit without a logic level left open whether the first word is the
    /// smaller, and closed that it is the greater.
    NotGreater,
    /// A bit without a logic level left open whether the first word is the
    /// greater, and closed that it is the smaller.
    NotLess,
    /// Nothing can be said.
    Unknown,
}

/// What is found once the bits `a` and `b` of the two words are seen, after
/// `before` was found for the bits above them.
pub open spec fn compare_bit(before: Relation, a: Voltage, b: Voltage) -> Relation {
    match before {
        Relation::Equal => match (bit_of(a), bit_of(b)) {
            (Some(true), Some(false)) => Relation::Greater,
            (Some(false), Some(true)) => Relation::Less,
            (Some(false), None) | (None, Some(true)) => Relation::NotGreater,
            (None, Some(false)) | (Some(true), None) => Relation::NotLess,
            (None, None) => Relation::Unknown,
            _ => Relation::Equal,
        },
        Relation::NotGreater => match (bit_of(a), bit_of(b)) {
            (Some(false), Some(true)) => Relation::Less,
            (Some(false), None) | (None, Some(true)) => Relation::NotGreater,
            (Some(false), Some(false)) | (Some(true), Some(true)) => Relation::NotGreater,
            _ => Relation::Unknown,
        },
        Relation::NotLess => match (bit_of(a), bit_of(b)) {
            (Some(true), Some(false)) => Relation::Greater,
            (None, Some(false)) | (Some(true), None) => Relation::NotLess,
            (Some(false), Some(false)) | (Some(true), Some(true)) => Relation::NotLess,
            _ => Relation::Unknown,
        },
        decided => decided,
    }
}

/// What the comparison of the words `inputs[0..bits]` and
/// `inputs[bits..2 * bits]` has found after their bits from `i` up.
pub open spec fn compare_from(inputs: Seq<Voltage>, bits: int, i: int) -> Relation
    decreases bits - i,
{
    if i >= bits {
        Relation::Equal
    } else {
        compare_bit(compare_from(inputs, bits, i + 1), inputs[i], inputs[bits + i])
    }
}

/// The three outputs for a relation: "less", "equal", "greater". What holds
/// is `High`, what is ruled out is `Low`, what is left open is `Error`.
pub open spec fn relation_word(relation: Relation) -> Seq<Voltage> {
    match relation {
        Relation::Less => seq![Voltage::High, Voltage::Low, Voltage::Low],
        Relation::Equal => seq![Voltage::Low, Voltage::High, Voltage::Low],
        Relation::Greater => seq![Voltage::Low, Voltage::Low, Voltage::High],
        Relation::NotGreater => seq![Voltage::Error, Voltage::Error, Voltage::Low],
        Relation::NotLess => seq![Voltage::Low, Voltage::Error, Voltage::Error],
        Relation::Unknown => seq![Voltage::Low, Voltage::Error, Voltage::Low],
    }
}

/// Once the comparison is decided or has given up, lower bits change
/// nothing.
pub proof fn lemma_compare_settled(inputs: Seq<Voltage>, bits: int, i: int, j: int)
    requires
        0 <= j <= i <= bits,
        compare_from(inputs, bits, i) == Relation::Less || compare_from(inputs, bits, i)
            == Relation::Greater || compare_from(inputs, bits, i) == Relation::Unknown,
    ensures
        compare_from(inputs, bits, j) == compare_from(inputs, bits, i),
    decreases i - j,
{
    if j < i {
        lemma_compare_settled(inputs, bits, i, j + 1);
    }
}

/// A three-way comparator of two unsigned words.
///
/// With `2 * n` inputs it compares `inputs[0..n]` with `inputs[n..2 * n]`
/// and drives "less" on output 0, "equal" on output 1 and "greater" on
/// output 2.
#[derive(Debug, Copy, Clone, Default)]
pub struct Comparator;

impl Comparator {
    /// A comparator.
    pub fn new() -> (comparator: Self) {
        Comparator
    }
}

impl Component for Comparator {
    open spec fn accepts(&self, num_inputs: nat, num_outputs: nat) -> bool {
        num_outputs >= 3
    }

    open spec fn driven(&self, inputs: Seq<Voltage>, num_outputs: nat) -> Seq<
        Option<VoltageInput>,
    > {
        drive_word(
            num_outputs,
            relation_word(compare_from(inputs, (inputs.len() / 2) as int, 0)),
        )
    }

    fn update(&mut self, interface: &mut ComponentInterface)
        ensures
            final(interface).outputs() == overlay(
                old(interface).outputs(),
                final(self).driven(old(interface).inputs(), old(interface).outputs().len()),
            ),
            final(interface).tidy(old(interface)),
            *final(self) == *old(self),
    {
        proof {
            interface.lemma_untouched();
        }
        let n: usize = interface.num_inputs();
        let bits: usize = n / 2;
        let ghost inputs = interface.inputs();
        let mut req_a_lower: bool = false;
        let mut req_b_lower: bool = false;
        let mut i: usize = bits;
        while i > 0
            invariant_except_break
                !(req_a_lower && req_b_lower),
                compare_from(inputs, bits as int, i as int) == (if req_a_lower {
                    Relation::NotGreater
                } else if req_b_lower {
                    Relation::NotLess
                } else {
                    Relation::Equal
                }),
            invariant
                0 <= i <= bits,
                bits == n / 2,
                n == inputs.len(),
                inputs == old(interface).inputs(),
                interface == old(interface),
                interface.wf(),
                interface.outputs().len() >= 3,
            ensures
                compare_from(inputs, bits as int, 0) == (if req_a_lower && req_b_lower {
                    Relation::Unknown
                } else if req_a_lower {
                    Relation::NotGreater
                } else if req_b_lower {
                    Relation::NotLess
                } else {
                    Relation::Equal
                }),
            decreases i,
        {
            i -= 1;
            let a = interface.input(i);
            let b = interface.input(bits + i);
            let mut undecidable: bool = false;
            match (a, b) {
                (Voltage::High, Voltage::Low) => {
                    if !req_a_lower {
                        proof {
                            lemma_compare_settled(inputs, bits as int, i as int, 0);
                        }
                        write_three(interface, Voltage::Low, Voltage::Low, Voltage::High);
                        return ;
                    }
                    undecidable = true;
                },
                (Voltage::Low, Voltage::High) => {
                    if !req_b_lower {
                        proof {
                            lemma_compare_settled(inputs, bits as int, i as int, 0);
                        }
                        write_three(interface, Voltage::High, Voltage::Low, Voltage::Low);
                        return ;
                    }
                    undecidable = true;
                },
                (Voltage::Low, Voltage::Low) | (Voltage::High, Voltage::High) => {},
                (Voltage::Low, _) | (_, Voltage::High) => {
                    if !req_b_lower {
                        req_a_lower = true;
                    } else {
                        undecidable = true;
                    }
                },
                (_, Voltage::Low) | (Voltage::High, _) => {
                    if !req_a_lower {
                        req_b_lower = true;
                    } else {
                        undecidable = true;
                    }
                },
                _ => {
                    undecidable = true;
                },
            }
            if undecidable {
                req_a_lower = true;
                req_b_lower = true;
                proof {
                    lemma_compare_settled(inputs, bits as int, i as int, 0);
                }
                break ;
            }
        }
        if req_a_lower || req_b_lower {
            write_three(
                interface,
                if req_b_lower {
                    Voltage::Low
                } else {
                    Voltage::Error
                },
                Voltage::Error,
                if req_a_lower {
                    Voltage::Low
                } else {
                    Voltage::Error
                },
            );
        } else {
            write_three(interface, Voltage::Low, Voltage::High, Voltage::Low);
        }
    }
}

/// How many of the first `n` of `inputs` are `High`; `None` where one of
/// them carries no logic level.
pub open spec fn count_high(inputs: Seq<Voltage>, n: int) -> Option<nat>
    decreases n,
{
    if n <= 0 {
        Some(0)
    } else {
        match (count_high(inputs, n - 1), bit_of(inputs[n - 1])) {
            (Some(c), Some(b)) => Some(
                if b {
                    c + 1
                } else {
                    c
                },
            ),
            _ => None,
        }
    }
}

/// What the bit adder drives on `num_outputs` outputs: the number of `High`
/// inputs in binary, cut to the outputs there are; `Error` everywhere where
/// an input carries no logic level.
pub open spec fn bit_adder_word(inputs: Seq<Voltage>, num_outputs: nat) -> Seq<Voltage> {
    Seq::new(
        num_outputs,
        |j: int|
            match count_high(inputs, inputs.len() as int) {
                Some(c) => level((c / pow2(j as nat)) % 2 == 1),
                None => Voltage::Error,
            },
    )
}

/// Counting stops for good at the first input without a logic level, and no
/// count exceeds the number of inputs counted.
pub proof fn lemma_count_high(inputs: Seq<Voltage>, i: int, n: int)
    requires
        0 <= i <= n,
    ensures
        count_high(inputs, i) is None ==> count_high(inputs, n) is None,
        count_high(inputs, n) matches Some(c) ==> c <= n,
    decreases n,
{
    if i < n {
        lemma_count_high(inputs, i, n - 1);
    } else if n > 0 {
        lemma_count_high(inputs, n - 1, n - 1);
    }
}

/// A population counter: it drives, in binary, how many of its inputs are
/// `High`.
#[derive(Debug, Copy, Clone, Default)]
pub struct BitAdder;

impl BitAdder {
    /// A bit adder.
    pub fn new() -> (adder: Self) {
        BitAdder
    }
}

impl Component for BitAdder {
    open spec fn accepts(&self, num_inputs: nat, num_outputs: nat) -> bool {
        true
    }

    open spec fn driven(&self, inputs: Seq<Voltage>, num_outputs: nat) -> Seq<
        Option<VoltageInput>,
    > {
        drive_word(num_outputs, bit_adder_word(inputs, num_outputs))
    }

    fn update(&mut self, interface: &mut ComponentInterface)
        ensures
            final(interface).outputs() == overlay(
                old(interface).outputs(),
                final(self).driven(old(interface).inputs(), old(interface).outputs().len()),
            ),
            final(interface).tidy(old(interface)),
            *final(self) == *old(self),
    {
        proof {
            interface.lemma_untouched();
        }
        let n: usize = interface.num_inputs();
        let m: usize = interface.num_outputs();
        let ghost base = interface.outputs();
        let ghost inputs = interface.inputs();
        let ghost word = bit_adder_word(inputs, m as nat);
        proof {
            assert(overlay(base, drive_prefix(base.len(), word, 0)) =~= base);
            assert(drive_prefix(base.len(), word, word.len() as int) =~= drive_word(
                base.len(),
                word,
            ));
        }
        let mut sum: usize = 0;
        let mut i: usize = 0;
        proof {
            lemma2_to64();
        }
        while i < n
            invariant
                0 <= i <= n == inputs.len(),
                m == base.len(),
                inputs == old(interface).inputs(),
                base == old(interface).outputs(),
                word == bit_adder_word(inputs, m as nat),
                interface == old(interface),
                interface.wf(),
                interface.outputs() == overlay(base, drive_prefix(base.len(), word, 0)),
                count_high(inputs, i as int) == Some(sum as nat),
                sum <= i,
            decreases n - i,
        {
            match interface.input(i) {
                Voltage::Low => {},
                Voltage::High => {
                    sum += 1;
                },
                _ => {
                    proof {
                        lemma_count_high(inputs, i as int + 1, n as int);
                        interface.lemma_untouched();
                    }
                    write_rest(
                        interface,
                        0,
                        m,
                        Voltage::Error,
                        Ghost(*old(interface)),
                        Ghost(word),
                    );
                    return ;
                },
            }
            i += 1;
        }
        let ghost count = sum;
        let mut j: usize = 0;
        while j < m
            invariant
                0 <= j <= m == base.len(),
                n == inputs.len(),
                inputs == old(interface).inputs(),
                base == old(interface).outputs(),
                word == bit_adder_word(inputs, m as nat),
                interface.wf(),
                interface.frame() == old(interface).frame(),
                interface.tidy(old(interface)),
                old(interface).wf(),
                interface.inputs() == inputs,
                interface.outputs() == overlay(base, drive_prefix(base.len(), word, j as int)),
                count_high(inputs, n as int) == Some(count as nat),
                sum == (count as nat) / pow2(j as nat),
            decreases m - j,
        {
            proof {
                lemma_drive_prefix(base, word, j as int);
                lemma_pow2_pos(j as nat);
                lemma_pow2_unfold(j as nat + 1);
                lemma_div_denominator(count as int, pow2(j as nat) as int, 2);
            }
            assert(sum & 1 == sum % 2 && sum >> 1 == sum / 2) by (bit_vector);
            interface.output(j, VoltageInput::logic(sum & 1 == 1));
            sum >>= 1;
            j += 1;
        }
    }
}

/// An adder of two bits: the sum on output 0, the carry on output 1.
#[derive(Debug, Copy, Clone, Default)]
pub struct HalfAdder;

impl HalfAdder {
    /// A half adder.
    pub fn new() -> (adder: Self) {
        HalfAdder
    }
}

impl Component for HalfAdder {
    open spec fn accepts(&self, num_inputs: nat, num_outputs: nat) -> bool {
        num_inputs >= 2 && num_outputs >= 2
    }

    open spec fn driven(&self, inputs: Seq<Voltage>, num_outputs: nat) -> Seq<
        Option<VoltageInput>,
    > {
        drive_word(
            num_outputs,
            seq![xor_of(inputs[0], inputs[1]), and_of(inputs[0], inputs[1])],
        )
    }

    fn update(&mut self, interface: &mut ComponentInterface)
        ensures
            final(interface).outputs() == overlay(
                old(interface).outputs(),
                final(self).driven(old(interface).inputs(), old(interface).outputs().len()),
            ),
            final(interface).tidy(old(interface)),
            *final(self) == *old(self),
    {
        proof {
            interface.lemma_untouched();
        }
        let a = interface.input(0);
        let b = interface.input(1);
        write_two(interface, XorFn::call(a, b).voltage, AndFn::call(a, b).voltage);
    }
}

/// The sum and the carry of three bits. Where an input carries no logic
/// level the sum is `Error`, and so is the carry unless two inputs that
/// agree decide it.
pub open spec fn full_adder_word(a: Voltage, b: Voltage, c: Voltage) -> Seq<Voltage> {
    let lows = (if a == Voltage::Low { 1int } else { 0int }) + (if b == Voltage::Low { 1int } else { 0int }) + (if c
        == Voltage::Low { 1int } else { 0int });
    let highs = (if a == Voltage::High { 1int } else { 0int }) + (if b == Voltage::High { 1int } else { 0int })
        + (if c == Voltage::High { 1int } else { 0int });
    seq![
        if lows + highs == 3 {
            level(highs % 2 == 1)
        } else {
            Voltage::Error
        },
        if lows >= 2 {
            Voltage::Low
        } else if highs >= 2 {
            Voltage::High
        } else {
            Voltage::Error
        },
    ]
}

/// An adder of three bits: the sum on output 0, the carry on output 1.
#[derive(Debug, Copy, Clone, Default)]
pub struct FullAdder;

impl FullAdder {
    /// A full adder.
    pub fn new() -> (adder: Self) {
        FullAdder
    }
}

impl Component for FullAdder {
    open spec fn accepts(&self, num_inputs: nat, num_outputs: nat) -> bool {
        num_inputs >= 3 && num_outputs >= 2
    }

    open spec fn driven(&self, inputs: Seq<Voltage>, num_outputs: nat) -> Seq<
        Option<VoltageInput>,
    > {
        drive_word(num_outputs, full_adder_word(inputs[0], inputs[1], inputs[2]))
    }

    fn update(&mut self, interface: &mut ComponentInterface)
        ensures
            final(interface).outputs() == overlay(
                old(interface).outputs(),
                final(self).driven(old(interface).inputs(), old(interface).outputs().len()),
            ),
            final(interface).tidy(old(interface)),
            *final(self) == *old(self),
    {
        proof {
            interface.lemma_untouched();
        }
        let a = interface.input(0);
        let b = interface.input(1);
        let c = interface.input(2);
        let (x, y): (Voltage, Voltage) = match (a, b, c) {
            (Voltage::Low, Voltage::Low, Voltage::Low) => (Voltage::Low, Voltage::Low),
            (Voltage::Low, Voltage::Low, Voltage::High)
            | (Voltage::Low, Voltage::High, Voltage::Low)
            | (Voltage::High, Voltage::Low, Voltage::Low) => (Voltage::High, Voltage::Low),
            (Voltage::Low, Voltage::High, Voltage::High)
            | (Voltage::High, Voltage::Low, Voltage::High)
            | (Voltage::High, Voltage::High, Voltage::Low) => (Voltage::Low, Voltage::High),
            (Voltage::High, Voltage::High, Voltage::High) => (Voltage::High, Voltage::High),
            (Voltage::Low, Voltage::Low, _)
            | (Voltage::Low, _, Voltage::Low)
            | (_, Voltage::Low, Voltage::Low) => (Voltage::Error, Voltage::Low),
            (_, Voltage::High, Voltage::High)
            | (Voltage::High, _, Voltage::High)
            | (Voltage::High, Voltage::High, _) => (Voltage::Error, Voltage::High),
            (_, _, _) => (Voltage::Error, Voltage::Error),
        };
        assert(seq![x, y] =~= full_adder_word(a, b, c));
        write_two(interface, x, y);
    }
}

/// What the shifter drives for `inputs`: the data word
/// `inputs[select_bits..]`, as wide as two to the `select_bits`, moved up by
/// the number that the selector `inputs[0..select_bits]` spells, with `Low`
/// moved in from below; `Error` everywhere where the selector spells none.
pub open spec fn shifter_word(inputs: Seq<Voltage>, select_bits: int) -> Seq<Voltage> {
    Seq::new(
        pow2(select_bits as nat),
        |j: int|
            match selected(inputs, select_bits) {
                Some(shift) => if j >= shift {
                    inputs[select_bits + j - shift]
                } else {
                    Voltage::Low
                },
                None => Voltage::Error,
            },
    )
}

/// A barrel shifter.
///
/// Its first `select_bits` inputs spell the shift, the following two to the
/// `select_bits` inputs are the data word, and as many outputs take the
/// shifted word.
#[derive(Debug, Copy, Clone)]
pub struct Shifter {
    select_bits: usize,
}

impl Shifter {
    /// The number of inputs that spell the shift.
    pub closed spec fn select_bits(&self) -> nat {
        self.select_bits as nat
    }

    /// A shifter whose shift is spelled by `select_bits` inputs.
    pub fn new(select_bits: usize) -> (shifter: Self)
        ensures
            shifter.select_bits() == select_bits,
    {
        Self { select_bits }
    }
}

impl Component for Shifter {
    open spec fn accepts(&self, num_inputs: nat, num_outputs: nat) -> bool {
        num_inputs >= self.select_bits() + pow2(self.select_bits()) && num_outputs >= pow2(
            self.select_bits(),
        )
    }

    open spec fn driven(&self, inputs: Seq<Voltage>, num_outputs: nat) -> Seq<
        Option<VoltageInput>,
    > {
        drive_word(num_outputs, shifter_word(inputs, self.select_bits() as int))
    }

    fn update(&mut self, interface: &mut ComponentInterface)
        ensures
            final(interface).outputs() == overlay(
                old(interface).outputs(),
                final(self).driven(old(interface).inputs(), old(interface).outputs().len()),
            ),
            final(interface).tidy(old(interface)),
            *final(self) == *old(self),
    {
        proof {
            interface.lemma_untouched();
        }
        let select_bits: usize = self.select_bits;
        let n: usize = interface.num_inputs();
        let ghost base = interface.outputs();
        let ghost inputs = interface.inputs();
        let ghost word = shifter_word(inputs, select_bits as int);
        proof {
            lemma_pow2_fits(select_bits as nat);
            lemma_pow2_pos(select_bits as nat);
            lemma_usize_shl_is_mul(1, select_bits);
            lemma_selected_bound(inputs, select_bits as int);
            assert(overlay(base, drive_prefix(base.len(), word, 0)) =~= base);
            assert(drive_prefix(base.len(), word, word.len() as int) =~= drive_word(
                base.len(),
                word,
            ));
        }
        let width: usize = 1usize << select_bits;
        let index: usize = match read_select(interface, select_bits) {
            Some(index) => index,
            None => {
                write_rest(interface, 0, width, Voltage::Error, Ghost(*old(interface)), Ghost(word));
                return ;
            },
        };
        let mut j: usize = 0;
        while j < width
            invariant
                0 <= j <= width == word.len() <= base.len(),
                index < width,
                select_bits + width <= inputs.len() == n,
                selected(inputs, select_bits as int) == Some(index as nat),
                inputs == old(interface).inputs(),
                base == old(interface).outputs(),
                word == shifter_word(inputs, select_bits as int),
                interface.wf(),
                interface.frame() == old(interface).frame(),
                interface.tidy(old(interface)),
                old(interface).wf(),
                interface.inputs() == inputs,
                interface.outputs() == overlay(base, drive_prefix(base.len(), word, j as int)),
            decreases width - j,
        {
            proof {
                lemma_drive_prefix(base, word, j as int);
            }
            if j >= index {
                let v = interface.input(select_bits + (j - index));
                interface.output(j, VoltageInput::strong(v));
            } else {
                interface.output(j, VoltageInput::strong(Voltage::Low));
            }
            j += 1;
        }
    }

    fn tick(&mut self, _tick: u64) -> (fire: bool)
        ensures
            !fire,
            *final(self) == *old(self),
    {
        false
    }
}

/// The number that the logic levels `word[from..from + n]` spell, least
/// significant bit first. A level that is not `High` counts as zero.
pub open spec fn word_value(word: Seq<Voltage>, from: int, n: int) -> nat
    decreases n,
{
    if n <= 0 {
        0
    } else {
        word_value(word, from, n - 1) + (if word[from + n - 1] == Voltage::High {
            pow2((n - 1) as nat)
        } else {
            0
        })
    }
}

/// Whether each of `word[from..from + n]` is a logic level.
pub open spec fn all_defined(word: Seq<Voltage>, from: int, n: int) -> bool {
    forall|i: int| from <= i < from + n ==> (#[trigger] word[i]).is_defined()
}

/// A number spelled by `n` bits is below two to the `n`.
pub proof fn lemma_word_bound(word: Seq<Voltage>, from: int, n: int)
    requires
        0 <= n,
    ensures
        word_value(word, from, n) < pow2(n as nat),
    decreases n,
{
    if n > 0 {
        lemma_word_bound(word, from, n - 1);
        lemma_pow2_unfold(n as nat);
    } else {
        lemma2_to64();
    }
}

/// The low bits of the sum, with the carry out of them, make up the sum of
/// the low bits of the operands and the carry-in.
proof fn lemma_adder_partial(inputs: Seq<Voltage>, bits: int, i: int)
    requires
        0 <= i <= bits,
        inputs.len() == 2 * bits + 1,
        all_defined(inputs, 0, 2 * bits + 1),
    ensures
        adder_carry(inputs, bits, i) is Some,
        all_defined(adder_word(inputs), 0, i),
        word_value(adder_word(inputs), 0, i) + (if adder_carry(inputs, bits, i).unwrap() {
            pow2(i as nat)
        } else {
            0
        }) == word_value(inputs, 0, i) + word_value(inputs, bits, i) + word_value(
            inputs,
            2 * bits,
            1,
        ),
    decreases i,
{
    let word = adder_word(inputs);
    assert(inputs[2 * bits].is_defined());
    reveal_with_fuel(word_value, 2);
    lemma2_to64();
    if i > 0 {
        lemma_adder_partial(inputs, bits, i - 1);
        assert(inputs[i - 1].is_defined());
        assert(inputs[bits + i - 1].is_defined());
        assert(word[i - 1] == adder_bit(inputs, bits, i - 1));
        lemma_pow2_unfold(i as nat);
        assert forall|j: int| 0 <= j < i implies (#[trigger] word[j]).is_defined() by {
            if j < i - 1 {
                assert(all_defined(word, 0, i - 1));
            }
        }
    }
}

/// With logic levels on all inputs, the adder drives logic levels that
/// spell the sum of the two operands and the carry-in. Taken with its
/// carry-out the sum never wraps.
pub proof fn lemma_adder_adds(inputs: Seq<Voltage>)
    requires
        inputs.len() % 2 == 1,
        all_defined(inputs, 0, inputs.len() as int),
    ensures
        ({
            let bits = (inputs.len() / 2) as int;
            let sum = word_value(inputs, 0, bits) + word_value(inputs, bits, bits) + word_value(
                inputs,
                2 * bits,
                1,
            );
            &&& all_defined(adder_word(inputs), 0, bits + 1)
            &&& word_value(adder_word(inputs), 0, bits + 1) == sum
            &&& word_value(adder_word(inputs), 0, bits + 1) == (sum as int) % (pow2(
                (bits + 1) as nat,
            ) as int)
        }),
{
    let bits = (inputs.len() / 2) as int;
    let word = adder_word(inputs);
    lemma_adder_partial(inputs, bits, bits);
    assert(word[bits] == adder_bit(inputs, bits, bits));
    assert forall|j: int| 0 <= j < bits + 1 implies (#[trigger] word[j]).is_defined() by {
        if j < bits {
            assert(all_defined(word, 0, bits));
        }
    }
    lemma_word_bound(word, 0, bits + 1);
    let sum = word_value(inputs, 0, bits) + word_value(inputs, bits, bits) + word_value(
        inputs,
        2 * bits,
        1,
    );
    lemma_fundamental_div_mod_converse(sum as int, pow2((bits + 1) as nat) as int, 0, sum as int);
}

/// The low bits of the difference, less the borrow out of them, make up the
/// difference of the low bits of the operands and the borrow-in.
proof fn lemma_subtractor_partial(inputs: Seq<Voltage>, bits: int, i: int)
    requires
        0 <= i <= bits,
        inputs.len() == 2 * bits + 1,
        all_defined(inputs, 0, 2 * bits + 1),
    ensures
        subtractor_borrow(inputs, bits, i) is Some,
        all_defined(subtractor_word(inputs), 0, i),
        word_value(subtractor_word(inputs), 0, i) - (if subtractor_borrow(inputs, bits, i).unwrap() {
            pow2(i as nat) as int
        } else {
            0
        }) == word_value(inputs, 0, i) - word_value(inputs, bits, i) - word_value(
            inputs,
            2 * bits,
            1,
        ),
    decreases i,
{
    let word = subtractor_word(inputs);
    assert(inputs[2 * bits].is_defined());
    reveal_with_fuel(word_value, 2);
    lemma2_to64();
    if i > 0 {
        lemma_subtractor_partial(inputs, bits, i - 1);
        assert(inputs[i - 1].is_defined());
        assert(inputs[bits + i - 1].is_defined());
        assert(word[i - 1] == subtractor_bit(inputs, bits, i - 1));
        lemma_pow2_unfold(i as nat);
        assert forall|j: int| 0 <= j < i implies (#[trigger] word[j]).is_defined() by {
            if j < i - 1 {
                assert(all_defined(word, 0, i - 1));
            }
        }
    }
}

/// With logic levels on all inputs, the subtractor drives logic levels that
/// spell, with the borrow-out as the top bit, the difference of the minuend
/// and the subtrahend with the borrow-in, modulo two to the number of
/// outputs driven.
pub proof fn lemma_subtractor_subtracts(inputs: Seq<Voltage>)
    requires
        inputs.len() % 2 == 1,
        all_defined(inputs, 0, inputs.len() as int),
    ensures
        ({
            let bits = (inputs.len() / 2) as int;
            let difference = word_value(inputs, 0, bits) - word_value(inputs, bits, bits)
                - word_value(inputs, 2 * bits, 1);
            &&& all_defined(subtractor_word(inputs), 0, bits + 1)
            &&& word_value(subtractor_word(inputs), 0, bits + 1) == difference % (pow2(
                (bits + 1) as nat,
            ) as int)
        }),
{
    let bits = (inputs.len() / 2) as int;
    let word = subtractor_word(inputs);
    lemma_subtractor_partial(inputs, bits, bits);
    assert(word[bits] == subtractor_bit(inputs, bits, bits));
    assert forall|j: int| 0 <= j < bits + 1 implies (#[trigger] word[j]).is_defined() by {
        if j < bits {
            assert(all_defined(word, 0, bits));
        }
    }
    lemma_word_bound(word, 0, bits + 1);
    lemma_pow2_unfold((bits + 1) as nat);
    let difference = word_value(inputs, 0, bits) - word_value(inputs, bits, bits) - word_value(
        inputs,
        2 * bits,
        1,
    );
    let borrow: int = if subtractor_borrow(inputs, bits, bits).unwrap() {
        1
    } else {
        0
    };
    let value = word_value(word, 0, bits + 1) as int;
    assert(value == difference + borrow * pow2((bits + 1) as nat)) by (nonlinear_arith)
        requires
            value == word_value(word, 0, bits) + borrow * pow2(bits as nat),
            word_value(word, 0, bits) - borrow * pow2(bits as nat) == difference,
            pow2((bits + 1) as nat) == 2 * pow2(bits as nat),
    ;
    lemma_fundamental_div_mod_converse(
        difference,
        pow2((bits + 1) as nat) as int,
        -borrow,
        value,
    );
}

/// The low bits of the two's complement, less the borrow out of them, make
/// up the negative of the low bits of the operand.
proof fn lemma_negator_partial(inputs: Seq<Voltage>, i: int)
    requires
        0 <= i <= inputs.len(),
        all_defined(inputs, 0, inputs.len() as int),
    ensures
        negator_borrow(inputs, i) is Some,
        all_defined(negator_word(inputs), 0, i),
        word_value(negator_word(inputs), 0, i) - (if negator_borrow(inputs, i).unwrap() {
            pow2(i as nat) as int
        } else {
            0
        }) == -word_value(inputs, 0, i),
    decreases i,
{
    let word = negator_word(inputs);
    if i > 0 {
        lemma_negator_partial(inputs, i - 1);
        assert(inputs[i - 1].is_defined());
        assert(word[i - 1] == negator_bit(inputs, i - 1));
        lemma_pow2_unfold(i as nat);
        assert forall|j: int| 0 <= j < i implies (#[trigger] word[j]).is_defined() by {
            if j < i - 1 {
                assert(all_defined(word, 0, i - 1));
            }
        }
    }
}

/// With logic levels on all inputs, the negator drives logic levels that
/// spell the negative of its operand, modulo two to its width.
pub proof fn lemma_negator_negates(inputs: Seq<Voltage>)
    requires
        all_defined(inputs, 0, inputs.len() as int),
    ensures
        all_defined(negator_word(inputs), 0, inputs.len() as int),
        word_value(negator_word(inputs), 0, inputs.len() as int) == (-word_value(
            inputs,
            0,
            inputs.len() as int,
        )) % (pow2(inputs.len()) as int),
{
    let bits = inputs.len() as int;
    let word = negator_word(inputs);
    lemma_negator_partial(inputs, bits);
    lemma_word_bound(word, 0, bits);
    let borrow: int = if negator_borrow(inputs, bits).unwrap() {
        1
    } else {
        0
    };
    let value = word_value(word, 0, bits) as int;
    let negative = -word_value(inputs, 0, bits);
    assert(value == negative + borrow * pow2(bits as nat)) by (nonlinear_arith)
        requires
            value - borrow * pow2(bits as nat) == negative,
    ;
    lemma_fundamental_div_mod_converse(negative, pow2(bits as nat) as int, -borrow, value);
}

/// A word is its lowest bit and twice the word of the bits above.
pub proof fn lemma_word_split(word: Seq<Voltage>, from: int, n: int)
    requires
        0 <= n,
    ensures
        word_value(word, from, n + 1) == (if word[from] == Voltage::High {
            1nat
        } else {
            0nat
        }) + 2 * word_value(word, from + 1, n),
    decreases n,
{
    lemma2_to64();
    if n > 0 {
        lemma_word_split(word, from, n - 1);
        lemma_pow2_unfold(n as nat);
        assert(word[from + 1 + (n - 1)] == word[from + (n + 1) - 1]);
    } else {
        reveal_with_fuel(word_value, 2);
    }
}

/// With logic levels on all inputs, the comparator finds how the two words
/// compare as numbers: looking at the bits from `i` up, it finds how the
/// numbers that these bits spell compare.
pub proof fn lemma_comparator_compares(inputs: Seq<Voltage>, bits: int, i: int)
    requires
        0 <= i <= bits,
        all_defined(inputs, 0, 2 * bits),
    ensures
        ({
            let a = word_value(inputs, i, bits - i);
            let b = word_value(inputs, bits + i, bits - i);
            compare_from(inputs, bits, i) == (if a < b {
                Relation::Less
            } else if a == b {
                Relation::Equal
            } else {
                Relation::Greater
            })
        }),
    decreases bits - i,
{
    if i < bits {
        lemma_comparator_compares(inputs, bits, i + 1);
        lemma_word_split(inputs, i, bits - i - 1);
        lemma_word_split(inputs, bits + i, bits - i - 1);
        assert(inputs[i].is_defined());
        assert(inputs[bits + i].is_defined());
    }
}

} // verus!
