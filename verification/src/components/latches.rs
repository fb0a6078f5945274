//! Latches: components that remember.
use vstd::prelude::*;
use crate::components::drive::{drive_word, lemma_drive_prefix};
use crate::circuit::{overlay, Component, ComponentInterface};
use crate::voltage::{Voltage, VoltageInput};

verus! {

/// The state that an SR latch in state `(s, r)` takes when its set input
/// carries `set` and its reset input carries `reset`.
///
/// `High` on one input and `Low` on the other sets or resets. A set latch
/// stays set while reset is `Low`, and a reset latch stays reset while set is
/// `Low`. Both inputs `High` force both halves. Anything else leaves the
/// latch without a state.
pub open spec fn latch_next(s: bool, r: bool, set: Voltage, reset: Voltage) -> (bool, bool) {
    if reset == Voltage::Low && (set == Voltage::High || (s && !r)) {
        (true, false)
    } else if set == Voltage::Low && (reset == Voltage::High || (!s && r)) {
        (false, true)
    } else if set == Voltage::High && reset == Voltage::High {
        (true, true)
    } else {
        (false, false)
    }
}

/// What an SR latch in state `(s, r)` drives on its two outputs: each output
/// is `Low` while the other half is forced, and both are `Error` while the
/// latch has no state.
pub open spec fn latch_word(s: bool, r: bool) -> Seq<Voltage> {
    if s || r {
        seq![
            if r {
                Voltage::Low
            } else {
                Voltage::High
            },
            if s {
                Voltage::Low
            } else {
                Voltage::High
            },
        ]
    } else {
        seq![Voltage::Error, Voltage::Error]
    }
}

/// A set-reset latch of two cross-coupled NOR gates.
///
/// Input 0 sets and input 1 resets; output 0 is the stored bit and output 1
/// its complement.
#[derive(Debug, Copy, Clone)]
pub struct SrNorLatch {
    s: bool,
    r: bool,
}

impl SrNorLatch {
    /// The two halves of the state: set and reset.
    pub closed spec fn state(&self) -> (bool, bool) {
        (self.s, self.r)
    }

    /// The latch after an update that sees `set` and `reset` on its inputs.
    pub closed spec fn next(self, set: Voltage, reset: Voltage) -> SrNorLatch {
        SrNorLatch {
            s: latch_next(self.s, self.r, set, reset).0,
            r: latch_next(self.s, self.r, set, reset).1,
        }
    }
}

impl Component for SrNorLatch {
    open spec fn accepts(&self, num_inputs: nat, num_outputs: nat) -> bool {
        num_inputs >= 2 && num_outputs >= 2
    }

    open spec fn driven(&self, inputs: Seq<Voltage>, num_outputs: nat) -> Seq<
        Option<VoltageInput>,
    > {
        drive_word(num_outputs, latch_word(self.state().0, self.state().1))
    }

    fn update(&mut self, interface: &mut ComponentInterface)
        ensures
            final(interface).outputs() == overlay(
                old(interface).outputs(),
                final(self).driven(old(interface).inputs(), old(interface).outputs().len()),
            ),
            final(interface).tidy(old(interface)),
            final(self).state() == latch_next(
                old(self).state().0,
                old(self).state().1,
                old(interface).inputs()[0],
                old(interface).inputs()[1],
            ),
            *final(self) == old(self).next(old(interface).inputs()[0], old(interface).inputs()[1]),
    {
        let s = interface.input(0);
        let r = interface.input(1);
        let (new_s, new_r): (bool, bool) = match (self.s, self.r, s, r) {
            (_, _, Voltage::High, Voltage::Low) | (true, false, _, Voltage::Low) => (true, false),
            (_, _, Voltage::Low, Voltage::High) | (false, true, Voltage::Low, _) => (false, true),
            (_, _, Voltage::High, Voltage::High) => (true, true),
            _ => (false, false),
        };
        self.s = new_s;
        self.r = new_r;
        let ghost base = interface.outputs();
        let ghost word = latch_word(new_s, new_r);
        proof {
            lemma_drive_prefix(base, word, 0);
            lemma_drive_prefix(base, word, 1);
        }
        if new_s || new_r {
            interface.output(
                0,
                VoltageInput::strong(
                    if new_r {
                        Voltage::Low
                    } else {
                        Voltage::High
                    },
                ),
            );
            interface.output(
                1,
                VoltageInput::strong(
                    if new_s {
                        Voltage::Low
                    } else {
                        Voltage::High
                    },
                ),
            );
        } else {
            interface.output(0, VoltageInput::strong(Voltage::Error));
            interface.output(1, VoltageInput::strong(Voltage::Error));
        }
    }

    fn tick(&mut self, _tick: u64) -> (fire: bool)
        ensures
            !fire,
            *final(self) == *old(self),
    {
        false
    }
}

impl Default for SrNorLatch {
    /// A latch in the reset state.
    fn default() -> (latch: Self)
        ensures
            latch.state() == (false, true),
    {
        SrNorLatch { s: false, r: true }
    }
}

} // verus!
