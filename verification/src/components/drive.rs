//! What components have in common when they drive their outputs: logic
//! levels and bits, words of voltages, and writing a word output by output.
use vstd::prelude::*;
use crate::circuit::{drive, lemma_drive_overlay, overlay, ComponentInterface};
use crate::voltage::{Voltage, VoltageInput};

verus! {

/// The bit that a logic level stands for, `None` for `Floating` and `Error`.
pub open spec fn bit_of(v: Voltage) -> Option<bool> {
    match v {
        Voltage::Low => Some(false),
        Voltage::High => Some(true),
        _ => None,
    }
}

/// The logic level that stands for `bit`.
pub open spec fn level(bit: bool) -> Voltage {
    if bit {
        Voltage::High
    } else {
        Voltage::Low
    }
}

/// The level of an optional bit, `Error` where there is none.
pub open spec fn level_or_error(bit: Option<bool>) -> Voltage {
    match bit {
        Some(b) => level(b),
        None => Voltage::Error,
    }
}

/// What a block drives that writes its first outputs with the voltages
/// `word`, strongly, and leaves the others alone.
pub open spec fn drive_word(num_outputs: nat, word: Seq<Voltage>) -> Seq<Option<VoltageInput>> {
    Seq::new(
        num_outputs,
        |j: int|
            if j < word.len() {
                Some(VoltageInput::strong(word[j]))
            } else {
                None
            },
    )
}

/// `drive_word` with all but the first `written` outputs still to write.
pub open spec fn drive_prefix(num_outputs: nat, word: Seq<Voltage>, written: int) -> Seq<
    Option<VoltageInput>,
> {
    Seq::new(
        num_outputs,
        |j: int|
            if j < written && j < word.len() {
                Some(VoltageInput::strong(word[j]))
            } else {
                None
            },
    )
}

/// Writing output `written` of a word extends the prefix written by one.
pub proof fn lemma_drive_prefix(
    base: Seq<Option<VoltageInput>>,
    word: Seq<Voltage>,
    written: int,
)
    requires
        0 <= written < word.len() <= base.len(),
    ensures
        drive(
            overlay(base, drive_prefix(base.len(), word, written)),
            written,
            VoltageInput::strong(word[written]),
        ) == overlay(base, drive_prefix(base.len(), word, written + 1)),
        overlay(base, drive_prefix(base.len(), word, 0)) == base,
        overlay(base, drive_prefix(base.len(), word, written))[written] == base[written],
        drive_prefix(base.len(), word, word.len() as int) == drive_word(base.len(), word),
{
    lemma_drive_overlay(
        base,
        drive_prefix(base.len(), word, written),
        written,
        VoltageInput::strong(word[written]),
    );
    assert(drive_prefix(base.len(), word, written).update(
        written,
        Some(VoltageInput::strong(word[written])),
    ) =~= drive_prefix(base.len(), word, written + 1));
    assert(overlay(base, drive_prefix(base.len(), word, 0)) =~= base);
    assert(drive_prefix(base.len(), word, word.len() as int) =~= drive_word(base.len(), word));
}

/// Writes the voltages `word[from..]` to the outputs of the same indices,
/// given that the outputs below `from` hold the word already, in an update
/// that started from `origin`.
pub(crate) fn write_rest(
    interface: &mut ComponentInterface,
    from: usize,
    to: usize,
    value: Voltage,
    Ghost(origin): Ghost<ComponentInterface>,
    Ghost(word): Ghost<Seq<Voltage>>,
)
    requires
        old(interface).wf(),
        origin.wf(),
        origin.frame() == old(interface).frame(),
        old(interface).tidy(&origin),
        from <= to == word.len() <= origin.outputs().len(),
        origin.outputs().len() == old(interface).outputs().len(),
        old(interface).outputs() == overlay(
            origin.outputs(),
            drive_prefix(origin.outputs().len(), word, from as int),
        ),
        forall|j: int| from <= j < to ==> word[j] == value,
    ensures
        final(interface).wf(),
        final(interface).frame() == old(interface).frame(),
        final(interface).inputs() == old(interface).inputs(),
        final(interface).tidy(&origin),
        final(interface).outputs() == overlay(
            origin.outputs(),
            drive_word(origin.outputs().len(), word),
        ),
{
    let ghost base = origin.outputs();
    let mut j: usize = from;
    while j < to
        invariant
            from <= j <= to == word.len() <= base.len(),
            base == origin.outputs(),
            origin.wf(),
            origin.frame() == interface.frame(),
            interface.wf(),
            interface.frame() == old(interface).frame(),
            interface.inputs() == old(interface).inputs(),
            interface.tidy(&origin),
            interface.outputs() == overlay(base, drive_prefix(base.len(), word, j as int)),
            forall|j: int| from <= j < to ==> word[j] == value,
        decreases to - j,
    {
        proof {
            lemma_drive_prefix(base, word, j as int);
            assert(interface.outputs()[j as int] == base[j as int]);
        }
        interface.output(j, VoltageInput::strong(value));
        j += 1;
    }
    proof {
        assert(drive_prefix(base.len(), word, word.len() as int) =~= drive_word(base.len(), word));
    }
}

/// Writes the three voltages to outputs 0, 1 and 2.
pub(crate) fn write_three(interface: &mut ComponentInterface, v0: Voltage, v1: Voltage, v2: Voltage)
    requires
        old(interface).wf(),
        old(interface).outputs().len() >= 3,
    ensures
        final(interface).wf(),
        final(interface).frame() == old(interface).frame(),
        final(interface).inputs() == old(interface).inputs(),
        final(interface).tidy(old(interface)),
        final(interface).outputs() == overlay(
            old(interface).outputs(),
            drive_word(old(interface).outputs().len(), seq![v0, v1, v2]),
        ),
{
    let ghost base = interface.outputs();
    let ghost word = seq![v0, v1, v2];
    proof {
        lemma_drive_prefix(base, word, 0);
        lemma_drive_prefix(base, word, 1);
        lemma_drive_prefix(base, word, 2);
    }
    interface.output(0, VoltageInput::strong(v0));
    interface.output(1, VoltageInput::strong(v1));
    interface.output(2, VoltageInput::strong(v2));
}

/// Writes the two voltages to outputs 0 and 1.
pub(crate) fn write_two(interface: &mut ComponentInterface, v0: Voltage, v1: Voltage)
    requires
        old(interface).wf(),
        old(interface).outputs().len() >= 2,
    ensures
        final(interface).wf(),
        final(interface).frame() == old(interface).frame(),
        final(interface).inputs() == old(interface).inputs(),
        final(interface).tidy(old(interface)),
        final(interface).outputs() == overlay(
            old(interface).outputs(),
            drive_word(old(interface).outputs().len(), seq![v0, v1]),
        ),
{
    let ghost base = interface.outputs();
    let ghost word = seq![v0, v1];
    proof {
        lemma_drive_prefix(base, word, 0);
        lemma_drive_prefix(base, word, 1);
    }
    interface.output(0, VoltageInput::strong(v0));
    interface.output(1, VoltageInput::strong(v1));
}

/// What a component with one output drives: `value` on output 0, nothing
/// elsewhere.
pub open spec fn single(num_outputs: nat, value: VoltageInput) -> Seq<Option<VoltageInput>> {
    Seq::new(
        num_outputs,
        |j: int|
            if j == 0 {
                Some(value)
            } else {
                None
            },
    )
}

/// A drive of `value` on output 0 over `base` is the overlay of `single`.
pub proof fn lemma_single(base: Seq<Option<VoltageInput>>, value: VoltageInput)
    requires
        base.len() > 0,
    ensures
        drive(base, 0, value) == overlay(base, single(base.len(), value)),
{
    assert(drive(base, 0, value) =~= overlay(base, single(base.len(), value)));
}

} // verus!
