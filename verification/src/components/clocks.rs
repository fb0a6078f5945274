//! Clocks: components that change with the ticks of the circuit.
use vstd::prelude::*;
use crate::circuit::{overlay, Component, ComponentInterface};
use crate::components::drive::{lemma_single, single};
use crate::voltage::{Voltage, VoltageInput};

verus! {

/// Whether a clock of `ticks_low` low and `ticks_high` high ticks per period
/// is high at tick `tick`, its period starting `phase` ticks early.
pub open spec fn clock_level(ticks_low: u32, ticks_high: u32, phase: u32, tick: u64) -> bool {
    (tick + phase) % (ticks_low + ticks_high) >= ticks_low
}

/// A free-running square wave.
///
/// Each period is `ticks_low` ticks of `Low` followed by `ticks_high` ticks
/// of `High`. A period has at least one tick and no more than `u32::MAX`.
#[derive(Debug)]
pub struct Clock {
    ticks_low: u32,
    ticks_high: u32,
    tick_phase: u32,
    state: bool,
}

impl Clock {
    #[verifier::type_invariant]
    spec fn period_fits(&self) -> bool {
        0 < self.ticks_low + self.ticks_high <= u32::MAX
    }

    /// The configuration and the level: low ticks, high ticks, phase, state.
    pub closed spec fn view(&self) -> (u32, u32, u32, bool) {
        (self.ticks_low, self.ticks_high, self.tick_phase, self.state)
    }

    /// The clock at tick `tick`.
    pub closed spec fn at(self, tick: u64) -> Clock {
        Clock {
            ticks_low: self.ticks_low,
            ticks_high: self.ticks_high,
            tick_phase: self.tick_phase,
            state: clock_level(self.ticks_low, self.ticks_high, self.tick_phase, tick),
        }
    }

    /// A clock that is low, with the given period and phase.
    pub fn new(ticks_low: u32, ticks_high: u32, tick_phase: u32) -> (clock: Self)
        requires
            0 < ticks_low + ticks_high <= u32::MAX,
        ensures
            clock@ == (ticks_low, ticks_high, tick_phase, false),
    {
        Clock { ticks_low, ticks_high, tick_phase, state: false }
    }

    /// Sets the lengths of the low and the high part of the period.
    pub fn set_ticks(&mut self, low: u32, high: u32)
        requires
            0 < low + high <= u32::MAX,
        ensures
            final(self)@ == (low, high, old(self)@.2, old(self)@.3),
    {
        proof {
            use_type_invariant(&*self);
        }
        *self = Clock { ticks_low: low, ticks_high: high, tick_phase: self.tick_phase, state: self.state };
    }

    /// Sets by how many ticks the period starts early.
    pub fn set_phase(&mut self, phase: u32)
        ensures
            final(self)@ == (old(self)@.0, old(self)@.1, phase, old(self)@.3),
    {
        proof {
            use_type_invariant(&*self);
        }
        self.tick_phase = phase;
    }

    /// The number of low ticks per period.
    pub fn ticks_low(&self) -> (ticks: u32)
        ensures
            ticks == self@.0,
    {
        self.ticks_low
    }

    /// The number of high ticks per period.
    pub fn ticks_high(&self) -> (ticks: u32)
        ensures
            ticks == self@.1,
    {
        self.ticks_high
    }

    /// By how many ticks the period starts early.
    pub fn tick_phase(&self) -> (phase: u32)
        ensures
            phase == self@.2,
    {
        self.tick_phase
    }

    /// Whether the clock is high.
    pub fn state(&self) -> (state: bool)
        ensures
            state == self@.3,
    {
        self.state
    }
}

impl Clone for Clock {
    fn clone(&self) -> (clock: Self)
        ensures
            clock@ == self@,
    {
        proof {
            use_type_invariant(self);
        }
        Clock {
            ticks_low: self.ticks_low,
            ticks_high: self.ticks_high,
            tick_phase: self.tick_phase,
            state: self.state,
        }
    }
}

impl Component for Clock {
    open spec fn accepts(&self, num_inputs: nat, num_outputs: nat) -> bool {
        num_outputs >= 1
    }

    open spec fn driven(&self, inputs: Seq<Voltage>, num_outputs: nat) -> Seq<
        Option<VoltageInput>,
    > {
        single(num_outputs, VoltageInput::logic(self@.3))
    }

    fn tick(&mut self, tick: u64) -> (fire: bool)
        ensures
            final(self)@ == (
                old(self)@.0,
                old(self)@.1,
                old(self)@.2,
                clock_level(old(self)@.0, old(self)@.1, old(self)@.2, tick),
            ),
            fire == (final(self)@.3 != old(self)@.3),
            *final(self) == old(self).at(tick),
    {
        proof {
            use_type_invariant(&*self);
        }
        let old_state = self.state;
        let period: u128 = (self.ticks_low as u64 + self.ticks_high as u64) as u128;
        self.state = (tick as u128 + self.tick_phase as u128) % period >= self.ticks_low as u128;
        self.state != old_state
    }

    fn update(&mut self, interface: &mut ComponentInterface)
        ensures
            final(interface).outputs() == overlay(
                old(interface).outputs(),
                final(self).driven(old(interface).inputs(), old(interface).outputs().len()),
            ),
            final(interface).tidy(old(interface)),
            *final(self) == *old(self),
    {
        proof {
            lemma_single(interface.outputs(), VoltageInput::logic(self.state));
        }
        interface.output(0, VoltageInput::logic(self.state));
    }
}

/// The level that a running controlled clock has at `tick`.
pub open spec fn controlled_level(ticks_low: u32, ticks_high: u32, phase: u32, tick: u64) -> Voltage {
    if clock_level(ticks_low, ticks_high, phase, tick) {
        Voltage::High
    } else {
        Voltage::Low
    }
}

/// The phase of a controlled clock after a tick during which its enable
/// input was `enabled`: turned back by one tick while the input is `Low`,
/// so that the clock stands still.
pub open spec fn held_phase(ticks_low: u32, ticks_high: u32, phase: u32, enabled: Voltage) -> u32 {
    if enabled == Voltage::Low {
        ((phase + ticks_low + ticks_high - 1) % (ticks_low + ticks_high)) as u32
    } else {
        phase
    }
}

/// A square wave that runs while its input is `High`.
///
/// While the input is `Low` the clock stands still. Once the input carries
/// no logic level at a tick, the clock drives `Error` from then on.
#[derive(Debug)]
pub struct ControlledClock {
    ticks_low: u32,
    ticks_high: u32,
    tick_phase: u32,
    state: Voltage,
    enabled: Voltage,
}

impl ControlledClock {
    #[verifier::type_invariant]
    spec fn period_fits(&self) -> bool {
        0 < self.ticks_low + self.ticks_high <= u32::MAX
    }

    /// The configuration: low ticks, high ticks, phase.
    pub closed spec fn timing(&self) -> (u32, u32, u32) {
        (self.ticks_low, self.ticks_high, self.tick_phase)
    }

    /// The level that the clock drives.
    pub closed spec fn level(&self) -> Voltage {
        self.state
    }

    /// What the enable input carried at the last update.
    pub closed spec fn enable(&self) -> Voltage {
        self.enabled
    }

    /// The clock at tick `tick`.
    pub closed spec fn at(self, tick: u64) -> ControlledClock {
        let phase = held_phase(self.ticks_low, self.ticks_high, self.tick_phase, self.enabled);
        ControlledClock {
            ticks_low: self.ticks_low,
            ticks_high: self.ticks_high,
            tick_phase: phase,
            state: if self.state == Voltage::Error || !self.enabled.is_defined() {
                Voltage::Error
            } else {
                controlled_level(self.ticks_low, self.ticks_high, phase, tick)
            },
            enabled: self.enabled,
        }
    }

    /// The clock after an update that sees `enabled` on its input.
    pub closed spec fn seeing(self, enabled: Voltage) -> ControlledClock {
        ControlledClock {
            ticks_low: self.ticks_low,
            ticks_high: self.ticks_high,
            tick_phase: self.tick_phase,
            state: self.state,
            enabled,
        }
    }

    /// A clock that is low and enabled, with the given period and phase.
    pub fn new(ticks_low: u32, ticks_high: u32, tick_phase: u32) -> (clock: Self)
        requires
            0 < ticks_low + ticks_high <= u32::MAX,
        ensures
            clock.timing() == (ticks_low, ticks_high, tick_phase),
            clock.level() == Voltage::Low,
            clock.enable() == Voltage::High,
    {
        ControlledClock {
            ticks_low,
            ticks_high,
            tick_phase,
            state: Voltage::Low,
            enabled: Voltage::High,
        }
    }

    /// Sets the lengths of the low and the high part of the period.
    pub fn set_ticks(&mut self, low: u32, high: u32)
        requires
            0 < low + high <= u32::MAX,
        ensures
            final(self).timing() == (low, high, old(self).timing().2),
            final(self).level() == old(self).level(),
            final(self).enable() == old(self).enable(),
    {
        *self = ControlledClock {
            ticks_low: low,
            ticks_high: high,
            tick_phase: self.tick_phase,
            state: self.state,
            enabled: self.enabled,
        };
    }

    /// Sets by how many ticks the period starts early.
    pub fn set_phase(&mut self, phase: u32)
        ensures
            final(self).timing() == (old(self).timing().0, old(self).timing().1, phase),
            final(self).level() == old(self).level(),
            final(self).enable() == old(self).enable(),
    {
        proof {
            use_type_invariant(&*self);
        }
        self.tick_phase = phase;
    }

    /// The number of low ticks per period.
    pub fn ticks_low(&self) -> (ticks: u32)
        ensures
            ticks == self.timing().0,
    {
        self.ticks_low
    }

    /// The number of high ticks per period.
    pub fn ticks_high(&self) -> (ticks: u32)
        ensures
            ticks == self.timing().1,
    {
        self.ticks_high
    }

    /// By how many ticks the period starts early.
    pub fn tick_phase(&self) -> (phase: u32)
        ensures
            phase == self.timing().2,
    {
        self.tick_phase
    }

    /// The level that the clock drives.
    pub fn state(&self) -> (state: Voltage)
        ensures
            state == self.level(),
    {
        self.state
    }

    /// What the enable input carried at the last update.
    pub fn enabled(&self) -> (enabled: Voltage)
        ensures
            enabled == self.enable(),
    {
        self.enabled
    }
}

impl Clone for ControlledClock {
    fn clone(&self) -> (clock: Self)
        ensures
            clock.timing() == self.timing(),
            clock.level() == self.level(),
            clock.enable() == self.enable(),
    {
        proof {
            use_type_invariant(self);
        }
        ControlledClock {
            ticks_low: self.ticks_low,
            ticks_high: self.ticks_high,
            tick_phase: self.tick_phase,
            state: self.state,
            enabled: self.enabled,
        }
    }
}

impl Component for ControlledClock {
    open spec fn accepts(&self, num_inputs: nat, num_outputs: nat) -> bool {
        num_inputs >= 1 && num_outputs >= 1
    }

    open spec fn driven(&self, inputs: Seq<Voltage>, num_outputs: nat) -> Seq<
        Option<VoltageInput>,
    > {
        single(num_outputs, VoltageInput::strong(self.level()))
    }

    fn tick(&mut self, tick: u64) -> (fire: bool)
        ensures
            final(self).enable() == old(self).enable(),
            final(self).timing() == (
                old(self).timing().0,
                old(self).timing().1,
                held_phase(
                    old(self).timing().0,
                    old(self).timing().1,
                    old(self).timing().2,
                    old(self).enable(),
                ),
            ),
            final(self).level() == (if old(self).level() == Voltage::Error
                || !old(self).enable().is_defined() {
                Voltage::Error
            } else {
                controlled_level(
                    final(self).timing().0,
                    final(self).timing().1,
                    final(self).timing().2,
                    tick,
                )
            }),
            fire == (final(self).level() != old(self).level()),
            *final(self) == old(self).at(tick),
    {
        proof {
            use_type_invariant(&*self);
        }
        let old_state = self.state;
        let period: u64 = self.ticks_low as u64 + self.ticks_high as u64;
        match self.enabled {
            Voltage::Low => {
                self.tick_phase = ((self.tick_phase as u64 + period - 1) % period) as u32;
            },
            Voltage::High => {},
            Voltage::Floating | Voltage::Error => {
                self.state = Voltage::Error;
            },
        }
        if self.state != Voltage::Error {
            self.state = if (tick as u128 + self.tick_phase as u128) % (period as u128)
                >= self.ticks_low as u128 {
                Voltage::High
            } else {
                Voltage::Low
            };
        }
        self.state != old_state
    }

    fn update(&mut self, interface: &mut ComponentInterface)
        ensures
            final(interface).outputs() == overlay(
                old(interface).outputs(),
                final(self).driven(old(interface).inputs(), old(interface).outputs().len()),
            ),
            final(interface).tidy(old(interface)),
            final(self).timing() == old(self).timing(),
            final(self).level() == old(self).level(),
            final(self).enable() == old(interface).inputs()[0],
            *final(self) == old(self).seeing(old(interface).inputs()[0]),
    {
        proof {
            use_type_invariant(&*self);
        }
        self.enabled = interface.input(0);
        proof {
            lemma_single(interface.outputs(), VoltageInput::strong(self.state));
        }
        interface.output(0, VoltageInput::strong(self.state));
    }
}

} // verus!
