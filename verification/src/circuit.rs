//! The propagation engine: wires, the interface through which a component
//! reads and drives them, and the circuit that schedules both.
//!
//! Two worklists drive a circuit. A wire whose driver slots were written sits
//! on the stack of dirty wires until its voltage is resolved again. A set of
//! components whose common input wire changed its voltage sits on the stack of
//! dirty sets until each of its members has been updated. Both stacks are
//! threaded through the wires and sets themselves.
use vstd::prelude::*;
use crate::components::kind::{AnyComponent, ComponentKind};
use crate::inline::{IdVec, Pin, PinVec, SlotVec};
use crate::voltage::{resolution, strong_pull, weak_pull, Voltage, VoltageInput};

pub mod builder;

verus! {

/// In a link field: the element is on no stack. As a wire or set id: none.
pub const NULL_INDEX: usize = usize::MAX;

/// In a link field or stack head: nothing follows.
pub const TAIL_INDEX: usize = usize::MAX - 1;

/// A net: its resolved voltage, its driver slots, the set of components that
/// read it, and its link in the stack of dirty wires.
#[derive(Debug)]
pub struct Wire {
    pub(crate) voltage: Voltage,
    pub(crate) inputs: SlotVec,
    pub(crate) invalidation_id: usize,
    pub(crate) next: usize,
}

/// The wiring of one component: the wires it reads, in order, and the pins
/// it drives, in order.
#[derive(Debug)]
pub struct Ports {
    pub(crate) inputs: IdVec,
    pub(crate) outputs: PinVec,
}

/// What a component update must leave as it found it: the wiring, every
/// voltage, and every driver slot that is not behind one of the pins of the
/// component whose ports are exposed.
pub struct Frame {
    pub voltages: Seq<Voltage>,
    pub set_ids: Seq<usize>,
    pub input_wires: Seq<Seq<usize>>,
    pub output_pins: Seq<Seq<Pin>>,
    pub current: int,
    pub foreign: Seq<Seq<Option<VoltageInput>>>,
}

/// The wires of a circuit, seen through the ports of one of its components.
///
/// A component reads the voltages of its input wires by index and writes
/// the driver slots behind its output pins by index. A write that changes a
/// slot puts the wire on the stack of dirty wires.
pub struct ComponentInterface {
    wires: Vec<Wire>,
    first_wire: usize,
    ports: Vec<Ports>,
    current: usize,
    dirty: Ghost<Seq<usize>>,
}

/// `base` with every connected output replaced by what `over` holds for it,
/// where `over` holds anything.
pub open spec fn overlay(
    base: Seq<Option<VoltageInput>>,
    over: Seq<Option<VoltageInput>>,
) -> Seq<Option<VoltageInput>> {
    Seq::new(
        base.len(),
        |j: int|
            if base[j] is Some && j < over.len() && over[j] is Some {
                over[j]
            } else {
                base[j]
            },
    )
}

/// `outputs` after `value` was written to output `index`: a connected output
/// takes the value, an unconnected one discards it.
pub open spec fn drive(
    outputs: Seq<Option<VoltageInput>>,
    index: int,
    value: VoltageInput,
) -> Seq<Option<VoltageInput>> {
    if outputs[index] is Some {
        outputs.update(index, Some(value))
    } else {
        outputs
    }
}

/// Writing `value` to output `index` on top of what `over` had written is
/// the same as having written `over` with `value` at `index`.
pub proof fn lemma_drive_overlay(
    base: Seq<Option<VoltageInput>>,
    over: Seq<Option<VoltageInput>>,
    index: int,
    value: VoltageInput,
)
    requires
        0 <= index < base.len(),
        over.len() == base.len(),
    ensures
        drive(overlay(base, over), index, value) == overlay(base, over.update(index, Some(value))),
        overlay(base, Seq::new(base.len(), |j: int| None::<VoltageInput>)) == base,
{
    assert(drive(overlay(base, over), index, value) =~= overlay(
        base,
        over.update(index, Some(value)),
    ));
    assert(overlay(base, Seq::new(base.len(), |j: int| None::<VoltageInput>)) =~= base);
}

/// A part of a circuit: it reads the voltages on its inputs and drives its
/// outputs.
///
/// The circuit calls `update` whenever an input wire of the component has
/// changed its voltage, and `tick` once per tick of the circuit.
pub trait Component {
    /// Whether the component can be wired to this many inputs and outputs.
    /// Unless a component says otherwise, it can be wired to any.
    open spec fn accepts(&self, num_inputs: nat, num_outputs: nat) -> bool {
        true
    }

    /// What the component, in the state it is in after an update, drives
    /// on each of its outputs when it sees `inputs`: `None` for an output
    /// of which nothing is said.
    open spec fn driven(&self, inputs: Seq<Voltage>, num_outputs: nat) -> Seq<
        Option<VoltageInput>,
    > {
        Seq::new(num_outputs, |j: int| None)
    }

    /// Reads the inputs and writes the outputs through `interface`.
    fn update(&mut self, interface: &mut ComponentInterface)
        requires
            old(interface).wf(),
            old(self).accepts(old(interface).inputs().len(), old(interface).outputs().len()),
        ensures
            final(interface).wf(),
            final(interface).frame() == old(interface).frame(),
            final(interface).inputs() == old(interface).inputs(),
            final(interface).outputs().len() == old(interface).outputs().len(),
            agrees(
                final(interface).outputs(),
                final(self).driven(old(interface).inputs(), old(interface).outputs().len()),
            ),
            forall|n: nat, m: nat| #[trigger] final(self).accepts(n, m) == old(self).accepts(n, m),
    ;

    /// Tells the component that the circuit has reached tick `tick`, and
    /// returns whether the component has to be updated for it. Unless a
    /// component says otherwise, a tick means nothing to it.
    fn tick(&mut self, tick: u64) -> (fire: bool)
        ensures
            forall|n: nat, m: nat| #[trigger] final(self).accepts(n, m) == old(self).accepts(n, m),
            !fire ==> forall|inputs: Seq<Voltage>, m: nat| #[trigger]
                final(self).driven(inputs, m) == old(self).driven(inputs, m),
        default_ensures
            !fire,
    {
        false
    }
}

impl ComponentInterface {
    /// The number of wires.
    pub closed spec fn num_wires(&self) -> nat {
        self.wires.len() as nat
    }

    /// The resolved voltage that wire `w` carries.
    pub closed spec fn voltage(&self, w: int) -> Voltage {
        self.wires[w].voltage
    }

    /// The driver slots of wire `w`.
    pub closed spec fn slots(&self, w: int) -> Seq<VoltageInput> {
        self.wires[w].inputs@
    }

    /// The id of the set of components that read wire `w`, `NULL_INDEX` if
    /// none does.
    pub closed spec fn set_id(&self, w: int) -> usize {
        self.wires[w].invalidation_id
    }

    /// The stack of dirty wires, top first.
    pub closed spec fn dirty_wires(&self) -> Seq<usize> {
        self.dirty@
    }

    /// The number of components that are wired up.
    pub closed spec fn num_components(&self) -> nat {
        self.ports.len() as nat
    }

    /// The wires that component `k` reads, in the order of its inputs.
    pub closed spec fn input_wires(&self, k: int) -> Seq<usize> {
        self.ports[k].inputs@
    }

    /// The pins that component `k` drives, in the order of its outputs.
    pub closed spec fn output_pins(&self, k: int) -> Seq<Pin> {
        self.ports[k].outputs@
    }

    /// The component whose ports are exposed.
    pub closed spec fn current(&self) -> int {
        self.current as int
    }

    /// What the slot behind `pin` holds, `None` for a pin without a wire.
    pub open spec fn slot_at(&self, pin: Pin) -> Option<VoltageInput> {
        if pin.connected() {
            Some(self.slots(pin.wire_id as int)[pin.input_id as int])
        } else {
            None
        }
    }

    /// The voltages on the input wires of component `k`.
    pub open spec fn inputs_of(&self, k: int) -> Seq<Voltage> {
        Seq::new(
            self.input_wires(k).len(),
            |i: int| self.voltage(self.input_wires(k)[i] as int),
        )
    }

    /// What component `k` drives: for each output the content of its slot,
    /// `None` for an output without a wire.
    pub open spec fn outputs_of(&self, k: int) -> Seq<Option<VoltageInput>> {
        Seq::new(self.output_pins(k).len(), |j: int| self.slot_at(self.output_pins(k)[j]))
    }

    /// The voltages on the inputs of the exposed component.
    pub open spec fn inputs(&self) -> Seq<Voltage> {
        self.inputs_of(self.current())
    }

    /// What the exposed component drives on its outputs.
    pub open spec fn outputs(&self) -> Seq<Option<VoltageInput>> {
        self.outputs_of(self.current())
    }

    /// Whether slot `s` of wire `w` is behind a pin of the exposed component.
    pub open spec fn owns(&self, w: int, s: int) -> bool {
        exists|j: int|
            0 <= j < self.output_pins(self.current()).len() && #[trigger] self.output_pins(
                self.current(),
            )[j] == (Pin { wire_id: w as usize, input_id: s as usize })
    }

    /// Everything that an update of the exposed component leaves untouched.
    pub open spec fn frame(&self) -> Frame {
        Frame {
            voltages: Seq::new(self.num_wires(), |w: int| self.voltage(w)),
            set_ids: Seq::new(self.num_wires(), |w: int| self.set_id(w)),
            input_wires: Seq::new(self.num_components(), |k: int| self.input_wires(k)),
            output_pins: Seq::new(self.num_components(), |k: int| self.output_pins(k)),
            current: self.current(),
            foreign: Seq::new(
                self.num_wires(),
                |w: int|
                    Seq::new(
                        self.slots(w).len(),
                        |s: int|
                            if self.owns(w, s) {
                                None
                            } else {
                                Some(self.slots(w)[s])
                            },
                    ),
            ),
        }
    }

    /// The stack of dirty wires is a chain through the `next` links that
    /// starts at `first_wire`, ends in `TAIL_INDEX`, visits no wire twice, and
    /// holds exactly the wires whose link is not `NULL_INDEX`.
    pub closed spec fn links_wf(&self) -> bool {
        let d = self.dirty@;
        &&& self.wires.len() < TAIL_INDEX
        &&& d.no_duplicates()
        &&& forall|i: int| 0 <= i < d.len() ==> #[trigger] d[i] < self.wires.len()
        &&& self.first_wire == (if d.len() == 0 {
            TAIL_INDEX
        } else {
            d[0]
        })
        &&& forall|i: int|
            0 <= i < d.len() ==> (#[trigger] self.wires[d[i] as int]).next == (if i + 1 < d.len() {
                d[i + 1]
            } else {
                TAIL_INDEX
            })
        &&& forall|w: int|
            0 <= w < self.wires.len() ==> ((#[trigger] self.wires[w]).next != NULL_INDEX
                <==> d.contains(w as usize))
    }

    /// Every wire that is not dirty carries the resolution of its slots.
    pub closed spec fn resolved(&self) -> bool {
        forall|w: int|
            0 <= w < self.wires.len() && (#[trigger] self.wires[w]).next == NULL_INDEX
                ==> self.wires[w].voltage == resolution(self.wires[w].inputs@)
    }

    /// Every input names a wire, every connected pin names a slot of a wire,
    /// and no slot is behind two pins.
    pub closed spec fn ports_wf(&self) -> bool {
        &&& forall|w: int|
            0 <= w < self.wires.len() ==> (#[trigger] self.wires[w]).inputs@.len() <= usize::MAX
        &&& forall|k: int, i: int|
            0 <= k < self.ports.len() && 0 <= i < self.ports[k].inputs@.len()
                ==> #[trigger] self.ports[k].inputs@[i] < self.wires.len()
        &&& forall|k: int, j: int|
            0 <= k < self.ports.len() && 0 <= j < self.ports[k].outputs@.len() && (
            #[trigger] self.ports[k].outputs@[j]).connected() ==> {
                &&& self.ports[k].outputs@[j].wire_id < self.wires.len()
                &&& self.ports[k].outputs@[j].input_id
                    < self.wires[self.ports[k].outputs@[j].wire_id as int].inputs@.len()
            }
        &&& forall|k1: int, j1: int, k2: int, j2: int|
            0 <= k1 < self.ports.len() && 0 <= j1 < self.ports[k1].outputs@.len() && 0 <= k2
                < self.ports.len() && 0 <= j2 < self.ports[k2].outputs@.len() && (k1 != k2 || j1
                != j2) && (#[trigger] self.ports[k1].outputs@[j1]).connected()
                ==> self.ports[k1].outputs@[j1] != #[trigger] self.ports[k2].outputs@[j2]
    }

    /// Whether the wires that are dirty are those that were dirty in `base`
    /// and those with a slot that holds something else than it did in `base`.
    pub closed spec fn tidy(&self, base: &ComponentInterface) -> bool {
        &&& self.wires.len() == base.wires.len()
        &&& forall|w: int|
            0 <= w < self.wires.len() ==> ((#[trigger] self.wires[w]).next != NULL_INDEX
                <==> base.wires[w].next != NULL_INDEX || self.wires[w].inputs@
                != base.wires[w].inputs@)
    }

    /// Whether slot `s` of wire `w` is behind a pin of some component.
    pub open spec fn pinned(&self, w: int, s: int) -> bool {
        exists|k: int, j: int|
            0 <= k < self.num_components() && 0 <= j < self.output_pins(k).len()
                && #[trigger] self.output_pins(k)[j] == (Pin {
                wire_id: w as usize,
                input_id: s as usize,
            })
    }

    /// An update of the exposed component that wrote only slots which had
    /// not been written since `base` keeps the wires tidy with regard to
    /// `base`.
    proof fn lemma_tidy_chain(&self, base: &ComponentInterface, after: &ComponentInterface)
        requires
            self.tidy(base),
            after.tidy(self),
            forall|w: int|
                0 <= w < self.wires.len() ==> (#[trigger] after.wires[w]).inputs@.len()
                    == self.wires[w].inputs@.len() && self.wires[w].inputs@.len()
                    == base.wires[w].inputs@.len(),
            forall|w: int, s: int|
                0 <= w < self.wires.len() && 0 <= s < self.wires[w].inputs@.len() && !self.owns(w, s)
                    ==> #[trigger] after.wires[w].inputs@[s] == self.wires[w].inputs@[s],
            forall|w: int, s: int|
                0 <= w < self.wires.len() && 0 <= s < self.wires[w].inputs@.len() && self.owns(w, s)
                    ==> #[trigger] self.wires[w].inputs@[s] == base.wires[w].inputs@[s],
        ensures
            after.tidy(base),
    {
        assert forall|w: int| 0 <= w < after.wires.len() implies ((
        #[trigger] after.wires[w]).next != NULL_INDEX <==> base.wires[w].next != NULL_INDEX
            || after.wires[w].inputs@ != base.wires[w].inputs@) by {
            let a = after.wires[w].inputs@;
            let m = self.wires[w].inputs@;
            let b = base.wires[w].inputs@;
            assert(self.wires[w].next != NULL_INDEX <==> base.wires[w].next != NULL_INDEX || m != b);
            assert(after.wires[w].next != NULL_INDEX <==> self.wires[w].next != NULL_INDEX || a
                != m);
            if a != m {
                if forall|s: int| 0 <= s < m.len() ==> a[s] == m[s] {
                    assert(a =~= m);
                }
                let s = choose|s: int| 0 <= s < m.len() && a[s] != m[s];
                assert(self.owns(w, s));
                assert(m[s] == b[s]);
                assert(a[s] != b[s]);
            } else if m != b {
                assert(a != b);
            } else {
                assert(a == b);
            }
            if a != b && a == m {
                assert(m != b);
            }
        }
    }

    /// Where no slot was written, the dirty wires are those that were dirty.
    pub proof fn lemma_untouched(&self)
        ensures
            self.tidy(self),
    {
    }

    /// Whether an update of the exposed component that started from `base`
    /// has not written output `index` yet.
    pub open spec fn unwritten(&self, base: &ComponentInterface, index: int) -> bool {
        &&& base.wf()
        &&& base.frame() == self.frame()
        &&& base.outputs().len() == self.outputs().len()
        &&& base.outputs()[index] == self.outputs()[index]
    }

    /// The invariant of the wires and their wiring, whichever component is
    /// exposed.
    pub closed spec fn net_wf(&self) -> bool {
        &&& self.links_wf()
        &&& self.resolved()
        &&& self.ports_wf()
    }

    /// The invariant that a component may rely on: the net is well formed and
    /// the exposed component is one of those wired up.
    pub closed spec fn wf(&self) -> bool {
        &&& self.net_wf()
        &&& self.current < self.ports.len()
    }

    /// The number of inputs of the exposed component.
    pub fn num_inputs(&self) -> (n: usize)
        requires
            self.wf(),
        ensures
            n == self.inputs().len(),
    {
        self.ports[self.current].inputs.len()
    }

    /// The number of outputs of the exposed component.
    pub fn num_outputs(&self) -> (n: usize)
        requires
            self.wf(),
        ensures
            n == self.outputs().len(),
    {
        self.ports[self.current].outputs.len()
    }

    /// The voltage on input `index` of the exposed component.
    pub fn input(&self, index: usize) -> (v: Voltage)
        requires
            self.wf(),
            index < self.inputs().len(),
        ensures
            v == self.inputs()[index as int],
    {
        let w: usize = self.ports[self.current].inputs.get(index);
        self.wires[w].voltage
    }

    /// Drives output `index` of the exposed component with `voltage`.
    ///
    /// Nothing happens if the output has no wire or its slot holds `voltage`
    /// already. Otherwise the slot takes `voltage`, and its wire goes on top
    /// of the stack of dirty wires unless it is on the stack already.
    pub fn output(&mut self, index: usize, voltage: VoltageInput)
        requires
            old(self).wf(),
            index < old(self).outputs().len(),
        ensures
            final(self).wf(),
            final(self).frame() == old(self).frame(),
            final(self).inputs() == old(self).inputs(),
            final(self).outputs() == drive(old(self).outputs(), index as int, voltage),
            old(self).outputs()[index as int] is None || old(self).outputs()[index as int]
                == Some(voltage) ==> *final(self) == *old(self),
            final(self).tidy(old(self)),
            forall|base: ComponentInterface| #[trigger]
                old(self).tidy(&base) && old(self).unwritten(&base, index as int)
                    ==> final(self).tidy(&base),
            final(self).dirty_wires() == ({
                let pin = old(self).output_pins(old(self).current())[index as int];
                if old(self).outputs()[index as int] is Some && old(self).outputs()[index as int]
                    != Some(voltage) && !old(self).dirty_wires().contains(pin.wire_id) {
                    seq![pin.wire_id] + old(self).dirty_wires()
                } else {
                    old(self).dirty_wires()
                }
            }),
    {
        let pin: Pin = self.ports[self.current].outputs.get(index);
        proof {
            assert forall|w: int| 0 <= w < self.wires.len() implies (
            (#[trigger] self.wires[w]).next != NULL_INDEX <==> self.wires[w].next != NULL_INDEX
                || self.wires[w].inputs@ != self.wires[w].inputs@) by {}
        }
        if pin.wire_id != NULL_INDEX {
            if self.wires[pin.wire_id].inputs.get(pin.input_id) != voltage {
                let wire = &mut self.wires[pin.wire_id];
                wire.inputs.set(pin.input_id, voltage);
                if wire.next == NULL_INDEX {
                    wire.next = self.first_wire;
                    self.first_wire = pin.wire_id;
                    proof {
                        self.dirty@ = seq![pin.wire_id] + self.dirty@;
                    }
                }
                proof {
                    old(self).lemma_write(*self, index as int, voltage);
                }
            }
        }
    }

    /// The state `after` is the state `self` with `voltage` written behind
    /// output `index`, which held something else: the invariant and the frame
    /// carry over, and the outputs change at `index` alone.
    proof fn lemma_write(&self, after: ComponentInterface, index: int, voltage: VoltageInput)
        requires
            self.wf(),
            0 <= index < self.ports[self.current as int].outputs@.len(),
            self.ports[self.current as int].outputs@[index].connected(),
            after.ports == self.ports,
            after.current == self.current,
            after.wires.len() == self.wires.len(),
            ({
                let pin = self.ports[self.current as int].outputs@[index];
                let w = pin.wire_id as int;
                &&& forall|x: int|
                    0 <= x < self.wires.len() && x != w ==> after.wires[x] == self.wires[x]
                &&& after.wires[w].voltage == self.wires[w].voltage
                &&& after.wires[w].invalidation_id == self.wires[w].invalidation_id
                &&& after.wires[w].inputs@ == self.wires[w].inputs@.update(
                    pin.input_id as int,
                    voltage,
                )
                &&& if self.wires[w].next == NULL_INDEX {
                    &&& after.wires[w].next == self.first_wire
                    &&& after.first_wire == pin.wire_id
                    &&& after.dirty@ == seq![pin.wire_id] + self.dirty@
                } else {
                    &&& after.wires[w].next == self.wires[w].next
                    &&& after.first_wire == self.first_wire
                    &&& after.dirty@ == self.dirty@
                }
            }),
            self.wires[self.ports[self.current as int].outputs@[index].wire_id as int].inputs@[self.ports[self.current as int].outputs@[index].input_id as int]
                != voltage,
        ensures
            after.wf(),
            after.frame() == self.frame(),
            after.inputs() == self.inputs(),
            after.outputs() == drive(self.outputs(), index, voltage),
            after.tidy(self),
            forall|base: ComponentInterface| #[trigger]
                self.tidy(&base) && self.unwritten(&base, index) ==> after.tidy(&base),
    {
        let pin = self.ports[self.current as int].outputs@[index];
        let w = pin.wire_id as int;
        let d = self.dirty@;
        let e = after.dirty@;
        assert(after.wires[w].inputs@[pin.input_id as int] != self.wires[w].inputs@[pin.input_id as int]);
        assert(after.tidy(self)) by {
            assert forall|x: int| 0 <= x < after.wires.len() implies ((
            #[trigger] after.wires[x]).next != NULL_INDEX <==> self.wires[x].next != NULL_INDEX
                || after.wires[x].inputs@ != self.wires[x].inputs@) by {
                if x == w {
                    if self.wires[w].next == NULL_INDEX {
                        assert(after.first_wire < TAIL_INDEX);
                        assert(self.first_wire != NULL_INDEX);
                    }
                }
            }
        }
        assert forall|base: ComponentInterface| #[trigger]
            self.tidy(&base) && self.unwritten(&base, index) implies after.tidy(&base) by {
            assert(base.frame().output_pins[self.current as int]
                == self.frame().output_pins[self.current as int]);
            assert(base.outputs()[index] == Some(
                base.slots(pin.wire_id as int)[pin.input_id as int],
            ));
            assert(self.outputs()[index] == Some(
                self.slots(pin.wire_id as int)[pin.input_id as int],
            ));
            assert forall|x: int| 0 <= x < after.wires.len() implies ((
            #[trigger] after.wires[x]).next != NULL_INDEX <==> base.wires[x].next != NULL_INDEX
                || after.wires[x].inputs@ != base.wires[x].inputs@) by {
                assert(self.wires[x].next != NULL_INDEX <==> base.wires[x].next != NULL_INDEX
                    || self.wires[x].inputs@ != base.wires[x].inputs@);
                if x == w {
                    assert(after.wires[w].inputs@[pin.input_id as int]
                        != base.wires[w].inputs@[pin.input_id as int]);
                    if self.wires[w].next == NULL_INDEX {
                        assert(after.first_wire < TAIL_INDEX);
                        assert(self.first_wire != NULL_INDEX);
                    }
                }
            }
        }
        assert(after.links_wf()) by {
            if self.wires[w].next == NULL_INDEX {
                assert(!d.contains(pin.wire_id));
                assert forall|i: int| 0 <= i < e.len() implies (#[trigger] after.wires[e[i] as int]).next
                    == (if i + 1 < e.len() {
                    e[i + 1]
                } else {
                    TAIL_INDEX
                }) by {
                    if i > 0 {
                        assert(e[i] == d[i - 1]);
                        assert(d.contains(d[i - 1]));
                        assert(self.wires[d[i - 1] as int].next != NULL_INDEX);
                    }
                }
                assert forall|x: int| 0 <= x < after.wires.len() implies ((
                #[trigger] after.wires[x]).next != NULL_INDEX <==> e.contains(x as usize)) by {
                    if x == w {
                        assert(e[0] == pin.wire_id);
                    } else {
                        if d.contains(x as usize) {
                            let i = choose|i: int| 0 <= i < d.len() && d[i] == x as usize;
                            assert(e[i + 1] == x as usize);
                        }
                        if e.contains(x as usize) {
                            let i = choose|i: int| 0 <= i < e.len() && e[i] == x as usize;
                            assert(d[i - 1] == x as usize);
                        }
                    }
                }
                assert(e.no_duplicates()) by {
                    assert forall|i: int, j: int| 0 <= i < e.len() && 0 <= j < e.len() && i != j implies e[i] != e[j] by {
                        if i > 0 && j > 0 {
                            assert(d[i - 1] != d[j - 1]);
                        } else if i > 0 {
                            assert(d.contains(d[i - 1]));
                        } else {
                            assert(d.contains(d[j - 1]));
                        }
                    }
                }
            } else {
                assert forall|i: int| 0 <= i < e.len() implies (#[trigger] after.wires[e[i] as int]).next
                    == (if i + 1 < e.len() {
                    e[i + 1]
                } else {
                    TAIL_INDEX
                }) by {
                    assert(self.wires[d[i] as int].next == (if i + 1 < d.len() {
                        d[i + 1]
                    } else {
                        TAIL_INDEX
                    }));
                }
            }
        }
        assert(after.resolved()) by {
            assert forall|x: int|
                0 <= x < after.wires.len() && (#[trigger] after.wires[x]).next
                    == NULL_INDEX implies after.wires[x].voltage == resolution(
                after.wires[x].inputs@,
            ) by {
                if x == w {
                    if self.wires[w].next == NULL_INDEX {
                        assert(after.first_wire < TAIL_INDEX);
                        assert(self.first_wire != NULL_INDEX);
                    }
                } else {
                    assert(self.wires[x].next == NULL_INDEX);
                }
            }
        }
        assert(after.ports_wf());
        let k = self.current as int;
        assert(after.outputs() =~= drive(self.outputs(), index, voltage)) by {
            assert forall|j: int| 0 <= j < self.ports[k].outputs@.len() implies #[trigger] after.outputs()[j]
                == drive(self.outputs(), index, voltage)[j] by {
                let q = self.ports[k].outputs@[j];
                if j != index && q.connected() {
                    assert(q != pin);
                }
            }
        }
        assert(after.inputs() =~= self.inputs());
        assert(after.frame().foreign =~~= self.frame().foreign) by {
            assert forall|x: int, s: int|
                0 <= x < self.wires.len() && 0 <= s < self.wires[x].inputs@.len() implies (
            #[trigger] after.frame().foreign[x][s]) == self.frame().foreign[x][s] by {
                assert(after.owns(x, s) == self.owns(x, s));
                if x == w && s == pin.input_id as int {
                    assert(self.output_pins(k)[index] == (Pin {
                        wire_id: x as usize,
                        input_id: s as usize,
                    }));
                    assert(self.owns(x, s));
                }
            }
        }
        assert(after.frame().voltages =~= self.frame().voltages);
        assert(after.frame().set_ids =~= self.frame().set_ids);
        assert(after.frame().input_wires =~= self.frame().input_wires);
        assert(after.frame().output_pins =~= self.frame().output_pins);
    }
}

/// The resolution of the driver slots of one wire.
fn resolve(slots: &SlotVec) -> (v: Voltage)
    ensures
        v == resolution(slots@),
{
    let n: usize = slots.len();
    let mut new_voltage = Voltage::Floating;
    let mut i: usize = 0;
    while i < n
        invariant
            0 <= i <= n == slots@.len(),
            new_voltage == strong_pull(slots@.take(i as int)),
        decreases n - i,
    {
        let input = slots.get(i);
        proof {
            assert(slots@.take(i as int + 1).drop_last() =~= slots@.take(i as int));
        }
        if !input.resistor {
            new_voltage = new_voltage.pull(input.voltage);
        }
        i += 1;
    }
    proof {
        assert(slots@.take(n as int) =~= slots@);
    }
    if new_voltage == Voltage::Floating {
        let mut i: usize = 0;
        while i < n
            invariant
                0 <= i <= n == slots@.len(),
                new_voltage == weak_pull(slots@.take(i as int)),
            decreases n - i,
        {
            let input = slots.get(i);
            proof {
                assert(slots@.take(i as int + 1).drop_last() =~= slots@.take(i as int));
            }
            if input.resistor {
                new_voltage = new_voltage.pull(input.voltage);
            }
            i += 1;
        }
    }
    new_voltage
}

/// An interned set of components: those that read one wire, or several
/// wires alike. Its link threads it into the stack of dirty sets.
#[derive(Debug)]
pub struct ComponentSet {
    pub(crate) components: IdVec,
    pub(crate) next: usize,
}

/// A component in a circuit, with the iteration in which it was last
/// updated.
pub struct ComponentWrapper {
    pub(crate) iteration: usize,
    pub(crate) component_impl: ComponentKind,
}

/// What a wire shows from outside: its voltage, and whether it is still
/// waiting to be resolved.
#[derive(Debug, Copy, Clone, PartialEq, Eq, Structural)]
pub struct WireState {
    pub voltage: Voltage,
    pub unstable: bool,
}

/// The handle of a wire.
#[derive(Copy, Clone, Debug, PartialEq, Eq, Hash, Structural)]
pub struct WireRef(pub(crate) usize);

impl WireRef {
    /// The index of the wire, `NULL_INDEX` for the handle of no wire.
    pub closed spec fn index(self) -> int {
        self.0 as int
    }

    /// The handle of no wire. As an output of a component it stands for an
    /// output that is not connected.
    pub fn none() -> (wire: WireRef)
        ensures
            wire.index() == NULL_INDEX,
    {
        WireRef(NULL_INDEX)
    }
}

/// The handle of a component.
#[derive(Copy, Clone, Debug, PartialEq, Eq, Hash, Structural)]
pub struct ComponentRef(pub(crate) usize);

impl ComponentRef {
    /// The index of the component.
    pub closed spec fn index(self) -> int {
        self.0 as int
    }
}

/// Whether the outputs `outputs` hold what `driven` says they are driven
/// with.
pub open spec fn agrees(
    outputs: Seq<Option<VoltageInput>>,
    driven: Seq<Option<VoltageInput>>,
) -> bool {
    forall|j: int|
        0 <= j < outputs.len() && j < driven.len() && (#[trigger] outputs[j]) is Some
            && driven[j] is Some ==> outputs[j] == driven[j]
}

/// A built circuit: wires, components, and the two stacks of work to do.
pub struct Circuit {
    iteration_count: usize,
    tick_count: u64,
    first_component_set: usize,
    net: ComponentInterface,
    component_sets: Vec<ComponentSet>,
    components: Vec<ComponentWrapper>,
    dirty_sets: Ghost<Seq<usize>>,
}

impl ComponentInterface {
    /// An update of the exposed component changes neither what another
    /// component reads nor what it drives.
    pub proof fn lemma_frame(&self, after: &ComponentInterface, k: int)
        requires
            self.net_wf(),
            after.frame() == self.frame(),
            after.num_wires() == self.num_wires(),
            after.num_components() == self.num_components(),
            forall|w: int| 0 <= w < self.num_wires() ==> after.slots(w).len() == self.slots(w).len(),
            0 <= k < self.num_components(),
            0 <= self.current() < self.num_components(),
        ensures
            after.input_wires(k) == self.input_wires(k),
            after.output_pins(k) == self.output_pins(k),
            after.inputs_of(k) == self.inputs_of(k),
            k != self.current() ==> after.outputs_of(k) == self.outputs_of(k),
    {
        assert(after.frame().input_wires[k] == self.frame().input_wires[k]);
        assert(after.frame().output_pins[k] == self.frame().output_pins[k]);
        assert forall|i: int| 0 <= i < self.input_wires(k).len() implies after.voltage(
            self.input_wires(k)[i] as int,
        ) == self.voltage(self.input_wires(k)[i] as int) by {
            let w = self.input_wires(k)[i] as int;
            assert(self.ports[k].inputs@[i] < self.wires.len());
            assert(0 <= w < self.num_wires());
            assert(self.frame().voltages[w] == self.voltage(w));
            assert(after.frame().voltages[w] == after.voltage(w));
        }
        assert(after.inputs_of(k) =~= self.inputs_of(k));
        if k != self.current() {
            assert forall|j: int| 0 <= j < self.output_pins(k).len() implies after.slot_at(
                self.output_pins(k)[j],
            ) == self.slot_at(self.output_pins(k)[j]) by {
                let pin = self.output_pins(k)[j];
                if pin.connected() {
                    assert(self.ports[k].outputs@[j].connected());
                    let w = pin.wire_id as int;
                    let s = pin.input_id as int;
                    if self.owns(w, s) {
                        let j2 = choose|j2: int|
                            0 <= j2 < self.output_pins(self.current()).len()
                                && #[trigger] self.output_pins(self.current())[j2] == (Pin {
                                wire_id: w as usize,
                                input_id: s as usize,
                            });
                        assert(self.ports[k].outputs@[j] != self.ports[self.current()].outputs@[j2]);
                    }
                    assert(after.frame().foreign[w][s] == self.frame().foreign[w][s]);
                }
            }
            assert(after.outputs_of(k) =~= self.outputs_of(k));
        }
    }
}

/// The wiring of a circuit: what `build` fixes for good.
pub struct Wiring {
    /// For each wire the id of the set of its readers, `NULL_INDEX` for a
    /// wire that nothing reads.
    pub set_ids: Seq<usize>,
    /// For each wire the number of its driver slots.
    pub slot_counts: Seq<nat>,
    /// For each component the wires that it reads.
    pub input_wires: Seq<Seq<usize>>,
    /// For each component the pins that it drives.
    pub output_pins: Seq<Seq<Pin>>,
    /// For each set of components its members.
    pub sets: Seq<Seq<usize>>,
}

impl Wiring {
    /// Whether component `k` reads wire `w`.
    pub open spec fn reads(self, k: int, w: int) -> bool {
        self.input_wires[k].contains(w as usize)
    }

    /// The sets are interned: each is a strictly increasing, non-empty list of
    /// components, no two sets are equal, and the set of a wire holds exactly
    /// the components that read the wire.
    pub open spec fn wf(self) -> bool {
        &&& self.set_ids.len() == self.slot_counts.len()
        &&& self.input_wires.len() == self.output_pins.len()
        &&& forall|w: int|
            0 <= w < self.set_ids.len() ==> #[trigger] self.set_ids[w] == NULL_INDEX
                || self.set_ids[w] < self.sets.len()
        &&& forall|s: int, i: int|
            0 <= s < self.sets.len() && 0 <= i < self.sets[s].len() ==> #[trigger] self.sets[s][i]
                < self.input_wires.len()
        &&& forall|s: int, i: int, j: int|
            0 <= s < self.sets.len() && 0 <= i < j < self.sets[s].len() ==> #[trigger] self.sets[s][i]
                < #[trigger] self.sets[s][j]
        &&& forall|s: int| 0 <= s < self.sets.len() ==> (#[trigger] self.sets[s]).len() > 0
        &&& forall|s: int, t: int|
            0 <= s < t < self.sets.len() ==> #[trigger] self.sets[s] != #[trigger] self.sets[t]
        &&& forall|k: int, i: int|
            0 <= k < self.input_wires.len() && 0 <= i < self.input_wires[k].len() ==> {
                let w = #[trigger] self.input_wires[k][i];
                &&& w < self.set_ids.len()
                &&& self.set_ids[w as int] != NULL_INDEX
                &&& self.sets[self.set_ids[w as int] as int].contains(k as usize)
            }
        &&& forall|w: int, i: int|
            0 <= w < self.set_ids.len() && self.set_ids[w] != NULL_INDEX && 0 <= i
                < self.sets[self.set_ids[w] as int].len() ==> self.reads(
                (#[trigger] self.sets[self.set_ids[w] as int][i]) as int,
                w,
            )
    }
}

impl Circuit {
    /// The wires and the wiring of the components.
    pub closed spec fn net(&self) -> ComponentInterface {
        self.net
    }

    /// The number of components.
    pub open spec fn num_components(&self) -> nat {
        self.net().num_components()
    }

    /// The number of wires.
    pub open spec fn num_wires(&self) -> nat {
        self.net().num_wires()
    }

    /// Component `k`, in the state it is in.
    pub closed spec fn component(&self, k: int) -> ComponentKind {
        self.components[k].component_impl
    }

    /// The stack of dirty sets, top first.
    pub closed spec fn dirty_sets(&self) -> Seq<usize> {
        self.dirty_sets@
    }

    /// The number of the iteration that comes next.
    pub closed spec fn iterations(&self) -> nat {
        self.iteration_count as nat
    }

    /// The number of ticks so far.
    pub closed spec fn ticks(&self) -> nat {
        self.tick_count as nat
    }

    /// The wiring of the circuit.
    pub closed spec fn wiring(&self) -> Wiring {
        Wiring {
            set_ids: Seq::new(self.net.wires.len() as nat, |w: int| self.net.wires[w].invalidation_id),
            slot_counts: Seq::new(
                self.net.wires.len() as nat,
                |w: int| self.net.wires[w].inputs@.len(),
            ),
            input_wires: Seq::new(self.net.ports.len() as nat, |k: int| self.net.ports[k].inputs@),
            output_pins: Seq::new(self.net.ports.len() as nat, |k: int| self.net.ports[k].outputs@),
            sets: Seq::new(
                self.component_sets.len() as nat,
                |s: int| self.component_sets[s].components@,
            ),
        }
    }

    /// The stack of dirty sets is a chain through the `next` links of the
    /// sets, as the stack of dirty wires is through those of the wires.
    closed spec fn set_links_wf(&self) -> bool {
        let d = self.dirty_sets@;
        &&& self.component_sets.len() < TAIL_INDEX
        &&& d.no_duplicates()
        &&& forall|i: int| 0 <= i < d.len() ==> #[trigger] d[i] < self.component_sets.len()
        &&& self.first_component_set == (if d.len() == 0 {
            TAIL_INDEX
        } else {
            d[0]
        })
        &&& forall|i: int|
            0 <= i < d.len() ==> (#[trigger] self.component_sets[d[i] as int]).next == (if i + 1
                < d.len() {
                d[i + 1]
            } else {
                TAIL_INDEX
            })
        &&& forall|s: int|
            0 <= s < self.component_sets.len() ==> ((#[trigger] self.component_sets[s]).next
                != NULL_INDEX <==> d.contains(s as usize))
    }

    /// Every component accepts the ports that it is wired to.
    closed spec fn accepting(&self) -> bool {
        forall|k: int|
            0 <= k < self.components.len() ==> (#[trigger] self.components[k]).component_impl.accepts(
                self.net.ports[k].inputs@.len(),
                self.net.ports[k].outputs@.len(),
            )
    }

    /// Whether every component is the component that it is in `before`, in
    /// whatever state: of the same make, and accepting the same ports.
    pub open spec fn continues(&self, before: &Circuit) -> bool {
        &&& self.num_components() == before.num_components()
        &&& forall|k: int, n: nat, m: nat|
            0 <= k < self.num_components() ==> #[trigger] self.component(k).accepts(n, m)
                == before.component(k).accepts(n, m)
        &&& forall|k: int|
            0 <= k < self.num_components() ==> #[trigger] before.component(k).same_make(
                self.component(k),
            )
    }

    /// What continues a circuit that continues `before` continues `before`.
    pub proof fn lemma_continues(&self, mid: &Circuit, before: &Circuit)
        requires
            self.continues(mid),
            mid.continues(before),
        ensures
            self.continues(before),
    {
        assert forall|k: int| 0 <= k < self.num_components() implies #[trigger] before.component(
            k,
        ).same_make(self.component(k)) by {
            assert(before.component(k).same_make(mid.component(k)));
            assert(mid.component(k).same_make(self.component(k)));
            ComponentKind::lemma_same_make(
                before.component(k),
                mid.component(k),
                self.component(k),
            );
        }
        assert forall|k: int, n: nat, m: nat|
            0 <= k < self.num_components() implies #[trigger] self.component(k).accepts(n, m)
            == before.component(k).accepts(n, m) by {
            assert(mid.component(k).accepts(n, m) == before.component(k).accepts(n, m));
        }
    }

    /// A circuit with the components of `before` continues `before`.
    proof fn lemma_continues_same(&self, before: &Circuit)
        requires
            self.components == before.components,
            self.net.ports.len() == before.net.ports.len(),
        ensures
            self.continues(before),
    {
        assert forall|k: int| 0 <= k < self.num_components() implies #[trigger] before.component(
            k,
        ).same_make(self.component(k)) by {
            ComponentKind::lemma_same_make(
                before.component(k),
                before.component(k),
                before.component(k),
            );
        }
    }

    /// No component carries the tag of iteration `bound` or of a later one.
    closed spec fn tags_below(&self, bound: int) -> bool {
        forall|k: int|
            0 <= k < self.components.len() ==> (#[trigger] self.components[k]).iteration
                == NULL_INDEX || self.components[k].iteration < bound
    }

    /// The invariant but for the iteration tags.
    closed spec fn core_wf(&self) -> bool {
        &&& self.net.net_wf()
        &&& self.components.len() == self.net.ports.len()
        &&& self.wiring().wf()
        &&& self.set_links_wf()
        &&& self.accepting()
    }

    /// The invariant of a circuit.
    pub closed spec fn wf(&self) -> bool {
        &&& self.core_wf()
        &&& self.tags_below(self.iteration_count as int)
        &&& self.dirty_sets@.len() == 0
    }

    /// Whether wire `w` waits to be resolved.
    pub open spec fn unstable(&self, w: int) -> bool {
        self.net().dirty_wires().contains(w as usize)
    }

    /// The voltage that wire `w` carries once the dirty wires are resolved.
    pub open spec fn resolved_voltage(&self, w: int) -> Voltage {
        if self.unstable(w) {
            resolution(self.net().slots(w))
        } else {
            self.net().voltage(w)
        }
    }

    /// Whether resolving the dirty wires changes the voltage of wire `w`.
    pub open spec fn changes(&self, w: int) -> bool {
        self.resolved_voltage(w) != self.net().voltage(w)
    }

    /// Whether component `k` reads a wire whose voltage changes when the
    /// dirty wires are resolved.
    pub open spec fn triggered(&self, k: int) -> bool {
        exists|i: int|
            0 <= i < self.net().input_wires(k).len() && self.changes(
                (#[trigger] self.net().input_wires(k)[i]) as int,
            )
    }

    /// The voltages on the inputs of component `k` once the dirty wires are
    /// resolved.
    pub open spec fn resolved_inputs(&self, k: int) -> Seq<Voltage> {
        Seq::new(
            self.net().input_wires(k).len(),
            |i: int| self.resolved_voltage(self.net().input_wires(k)[i] as int),
        )
    }

    /// Whether no component is from outside the library.
    pub open spec fn library_only(&self) -> bool {
        forall|k: int| 0 <= k < self.num_components() ==> !(#[trigger] self.component(k) is Custom)
    }

    /// Whether component `k` is what an iteration makes of the component
    /// that it is in `before`: updated for the resolved voltages on its inputs
    /// if one of them changes, and left alone otherwise. Of a component from
    /// outside the library that is updated nothing is said.
    pub open spec fn component_iterated(&self, before: &Circuit, k: int) -> bool {
        if before.triggered(k) {
            !(before.component(k) is Custom) ==> {
                &&& self.component(k) == before.component(k).updated(before.resolved_inputs(k))
                &&& self.net().outputs_of(k) == overlay(
                    before.net().outputs_of(k),
                    self.component(k).driven(
                        before.resolved_inputs(k),
                        before.net().output_pins(k).len(),
                    ),
                )
            }
        } else {
            &&& self.component(k) == before.component(k)
            &&& self.net().outputs_of(k) == before.net().outputs_of(k)
        }
    }

    /// Whether the slots hold what they hold in `before` wherever no pin is
    /// in front of them, and are as many.
    pub open spec fn slots_kept(&self, before: &Circuit) -> bool {
        &&& forall|w: int|
            0 <= w < before.num_wires() ==> (#[trigger] self.net().slots(w)).len()
                == before.net().slots(w).len()
        &&& forall|w: int, s: int|
            0 <= w < before.num_wires() && 0 <= s < before.net().slots(w).len()
                && !before.net().pinned(w, s) ==> #[trigger] self.net().slots(w)[s]
                == before.net().slots(w)[s]
    }

    /// Whether this circuit is what one iteration makes of `before`: every
    /// dirty wire is resolved, every component that reads a wire whose voltage
    /// has changed is updated, and a wire is dirty if the update of a component
    /// has changed one of its slots. In a circuit of library components, no
    /// other wire is dirty.
    pub open spec fn iterated(&self, before: &Circuit) -> bool {
        &&& self.wf()
        &&& self.wiring() == before.wiring()
        &&& self.num_wires() == before.num_wires()
        &&& self.num_components() == before.num_components()
        &&& self.ticks() == before.ticks()
        &&& self.iterations() == before.iterations() + 1
        &&& self.continues(before)
        &&& forall|w: int|
            0 <= w < before.num_wires() ==> #[trigger] self.net().voltage(w)
                == before.resolved_voltage(w)
        &&& forall|k: int|
            0 <= k < before.num_components() ==> #[trigger] self.component_iterated(before, k)
        &&& self.slots_kept(before)
        &&& before.library_only() ==> forall|w: int|
            0 <= w < before.num_wires() ==> (#[trigger] self.unstable(w) <==> self.net().slots(w)
                != before.net().slots(w))
    }

    /// Whether component `k` is what a tick makes of the component that it
    /// is in `before`: told of the number of the tick, and updated for the
    /// voltages on its inputs if it fires. Of a component from outside the
    /// library nothing is said.
    pub open spec fn component_ticked(&self, before: &Circuit, k: int) -> bool {
        let tick = (before.ticks() + 1) as u64;
        let told = before.component(k).ticked(tick);
        !(before.component(k) is Custom) ==> if before.component(k).fires(tick) {
            &&& self.component(k) == told.updated(before.net().inputs_of(k))
            &&& self.net().outputs_of(k) == overlay(
                before.net().outputs_of(k),
                self.component(k).driven(
                    before.net().inputs_of(k),
                    before.net().output_pins(k).len(),
                ),
            )
        } else {
            &&& self.component(k) == told
            &&& self.net().outputs_of(k) == before.net().outputs_of(k)
        }
    }

    /// Whether this circuit is what a tick makes of `before`: no voltage
    /// changes, every component is told of the tick, those that fire are
    /// updated, and a wire becomes dirty if an update has changed one of its
    /// slots. In a circuit of library components, no other wire becomes
    /// dirty.
    pub open spec fn ticked(&self, before: &Circuit) -> bool {
        &&& self.wf()
        &&& self.wiring() == before.wiring()
        &&& self.num_wires() == before.num_wires()
        &&& self.num_components() == before.num_components()
        &&& self.ticks() == before.ticks() + 1
        &&& self.iterations() == 0
        &&& self.continues(before)
        &&& forall|w: int|
            0 <= w < before.num_wires() ==> #[trigger] self.net().voltage(w)
                == before.net().voltage(w)
        &&& forall|k: int|
            0 <= k < before.num_components() ==> #[trigger] self.component_ticked(before, k)
        &&& self.slots_kept(before)
        &&& before.library_only() ==> forall|w: int|
            0 <= w < before.num_wires() ==> (#[trigger] self.unstable(w) <==> before.unstable(w)
                || self.net().slots(w) != before.net().slots(w))
    }

    /// Whether `trace` is a run of iterations from `before` to this circuit
    /// that `propagate` makes with a budget of `max_iterations` and the result
    /// `stable`: it stops at the first circuit that is stable, or when the
    /// budget is spent.
    pub open spec fn ends(
        &self,
        before: &Circuit,
        trace: Seq<Circuit>,
        max_iterations: nat,
        stable: bool,
    ) -> bool {
        &&& 1 <= trace.len() <= max_iterations + 1
        &&& trace[0] == *before
        &&& trace[trace.len() - 1] == *self
        &&& forall|i: int| 1 <= i < trace.len() ==> (#[trigger] trace[i]).iterated(&trace[i - 1])
        &&& forall|i: int| 1 <= i < trace.len() - 1 ==> !(#[trigger] trace[i]).is_stable()
        &&& stable == (trace.len() > 1 && self.is_stable())
        &&& !stable ==> trace.len() == max_iterations + 1
    }

    /// Whether this circuit is what `propagate` makes of `before` with a
    /// budget of `max_iterations` and the result `stable`.
    pub open spec fn propagated(&self, before: &Circuit, max_iterations: nat, stable: bool) -> bool {
        exists|trace: Seq<Circuit>| #[trigger] self.ends(before, trace, max_iterations, stable)
    }

    /// Whether both stacks are empty: nothing is left to do.
    pub open spec fn is_stable(&self) -> bool {
        self.net().dirty_wires().len() == 0 && self.dirty_sets().len() == 0
    }

    /// Whether component `k` drives what it should for the voltages that its
    /// inputs carry.
    pub open spec fn settled(&self, k: int) -> bool {
        agrees(
            self.net().outputs_of(k),
            self.component(k).driven(self.net().inputs_of(k), self.net().output_pins(k).len()),
        )
    }

    /// Whether component `k` is a member of a dirty set, and so waits for an
    /// update.
    pub open spec fn pending(&self, k: int) -> bool {
        exists|p: int, i: int|
            0 <= p < self.dirty_sets().len() && 0 <= i < self.wiring().sets[self.dirty_sets()[p] as int].len()
                && #[trigger] self.wiring().sets[self.dirty_sets()[p] as int][i] == k
    }

    /// Every component either drives what it should for its inputs or waits
    /// for an update.
    pub open spec fn coherent(&self) -> bool {
        forall|k: int| 0 <= k < self.num_components() ==> #[trigger] self.settled(k) || self.pending(k)
    }

    /// Resolves the wire on top of the stack of dirty wires and takes it off
    /// the stack. If its voltage changes, the set of its readers becomes
    /// dirty.
    fn update_wire(&mut self)
        requires
            old(self).core_wf(),
            old(self).net.first_wire != TAIL_INDEX,
        ensures
            final(self).core_wf(),
            final(self).wiring() == old(self).wiring(),
            final(self).components == old(self).components,
            final(self).iteration_count == old(self).iteration_count,
            final(self).tick_count == old(self).tick_count,
            final(self).net.dirty@ == old(self).net.dirty@.drop_first(),
            old(self).net.dirty@.len() > 0,
            final(self).net.ports == old(self).net.ports,
            final(self).net.current == old(self).net.current,
            forall|w: int|
                0 <= w < old(self).net.wires.len() ==> (#[trigger] final(self).net.wires[w]).inputs
                    == old(self).net.wires[w].inputs,
            forall|w: int|
                0 <= w < old(self).net.wires.len() && w != old(self).net.first_wire
                    ==> #[trigger] final(self).net.wires[w] == old(self).net.wires[w],
            old(self).coherent() ==> final(self).coherent(),
            old(self).dirty_sets@.len() > 0 ==> final(self).dirty_sets@.len() > 0,
            final(self).net.wires[old(self).net.first_wire as int].voltage == resolution(
                old(self).net.wires[old(self).net.first_wire as int].inputs@,
            ),
            forall|s: usize| #[trigger]
                final(self).dirty_sets@.contains(s) <==> old(self).dirty_sets@.contains(s) || (s
                    != NULL_INDEX && s == old(self).net.wires[old(self).net.first_wire as int].invalidation_id
                    && old(self).net.wires[old(self).net.first_wire as int].voltage != resolution(
                    old(self).net.wires[old(self).net.first_wire as int].inputs@,
                )),
    {
        let wire_id: usize = self.net.first_wire;
        proof {
            assert(self.net.dirty@.len() > 0);
            assert(self.net.dirty@[0] == wire_id);
        }
        let new_voltage = resolve(&self.net.wires[wire_id].inputs);
        let wire = &mut self.net.wires[wire_id];
        let changed: bool = wire.voltage != new_voltage;
        if changed {
            wire.voltage = new_voltage;
            if wire.invalidation_id != NULL_INDEX {
                proof {
                    assert(old(self).wiring().set_ids[wire_id as int] == wire.invalidation_id);
                }
                let component_set = &mut self.component_sets[wire.invalidation_id];
                if component_set.next == NULL_INDEX {
                    component_set.next = self.first_component_set;
                    self.first_component_set = wire.invalidation_id;
                    proof {
                        self.dirty_sets@ = seq![wire.invalidation_id] + self.dirty_sets@;
                    }
                }
            }
        }
        let result: usize = wire.next;
        wire.next = NULL_INDEX;
        self.net.first_wire = result;
        proof {
            self.net.dirty@ = self.net.dirty@.drop_first();
            old(self).lemma_update_wire(*self, changed);
        }
    }

    /// The state `after` is the state `self` with the top of the stack of
    /// dirty wires resolved and popped: the invariant carries over.
    proof fn lemma_update_wire(&self, after: Circuit, changed: bool)
        requires
            self.core_wf(),
            self.net.dirty@.len() > 0,
            after.components == self.components,
            after.net.ports == self.net.ports,
            after.net.current == self.net.current,
            after.net.wires.len() == self.net.wires.len(),
            after.component_sets.len() == self.component_sets.len(),
            after.net.dirty@ == self.net.dirty@.drop_first(),
            ({
                let w = self.net.dirty@[0] as int;
                let id = self.net.wires[w].invalidation_id;
                let push = changed && id != NULL_INDEX && self.component_sets[id as int].next
                    == NULL_INDEX;
                &&& forall|x: int|
                    0 <= x < self.net.wires.len() && x != w ==> after.net.wires[x]
                        == self.net.wires[x]
                &&& after.net.wires[w].inputs == self.net.wires[w].inputs
                &&& after.net.wires[w].invalidation_id == id
                &&& after.net.wires[w].voltage == resolution(self.net.wires[w].inputs@)
                &&& changed == (self.net.wires[w].voltage != after.net.wires[w].voltage)
                &&& after.net.wires[w].next == NULL_INDEX
                &&& after.net.first_wire == self.net.wires[w].next
                &&& forall|s: int|
                    0 <= s < self.component_sets.len() && !(push && s == id)
                        ==> after.component_sets[s] == self.component_sets[s]
                &&& if push {
                    &&& after.component_sets[id as int].components
                        == self.component_sets[id as int].components
                    &&& after.component_sets[id as int].next == self.first_component_set
                    &&& after.first_component_set == id
                    &&& after.dirty_sets@ == seq![id] + self.dirty_sets@
                } else {
                    &&& after.first_component_set == self.first_component_set
                    &&& after.dirty_sets@ == self.dirty_sets@
                }
            }),
        ensures
            after.core_wf(),
            after.wiring() == self.wiring(),
            self.coherent() ==> after.coherent(),
            self.dirty_sets@.len() > 0 ==> after.dirty_sets@.len() > 0,
            forall|s: usize| #[trigger]
                after.dirty_sets@.contains(s) <==> self.dirty_sets@.contains(s) || (s != NULL_INDEX
                    && s == self.net.wires[self.net.dirty@[0] as int].invalidation_id && changed),
    {
        let w = self.net.dirty@[0] as int;
        assert forall|s: usize| #[trigger]
            after.dirty_sets@.contains(s) <==> self.dirty_sets@.contains(s) || (s != NULL_INDEX && s
                == self.net.wires[self.net.dirty@[0] as int].invalidation_id && changed) by {
            let id = self.net.wires[w].invalidation_id;
            let push = changed && id != NULL_INDEX && self.component_sets[id as int].next
                == NULL_INDEX;
            if push {
                assert(after.dirty_sets@[0] == id);
                if self.dirty_sets@.contains(s) {
                    let i = choose|i: int| 0 <= i < self.dirty_sets@.len() && self.dirty_sets@[i] == s;
                    assert(after.dirty_sets@[i + 1] == s);
                }
                if after.dirty_sets@.contains(s) && s != id {
                    let i = choose|i: int| 0 <= i < after.dirty_sets@.len() && after.dirty_sets@[i] == s;
                    assert(self.dirty_sets@[i - 1] == s);
                }
            } else if changed && id != NULL_INDEX {
                assert(self.wiring().set_ids[w] == id);
                assert(self.component_sets[id as int].next != NULL_INDEX);
                assert(self.dirty_sets@.contains(id));
            }
        }
        let id = self.net.wires[w].invalidation_id;
        let push = changed && id != NULL_INDEX && self.component_sets[id as int].next == NULL_INDEX;
        let d = self.net.dirty@;
        let e = after.net.dirty@;
        assert(d.contains(d[0]));
        assert(self.wiring().set_ids[w] == id);
        assert(after.wiring().set_ids =~= self.wiring().set_ids);
        assert(after.wiring().slot_counts =~= self.wiring().slot_counts);
        assert(after.wiring().input_wires =~= self.wiring().input_wires);
        assert(after.wiring().output_pins =~= self.wiring().output_pins);
        assert(after.wiring().sets =~= self.wiring().sets) by {
            assert forall|s: int| 0 <= s < self.component_sets.len() implies after.component_sets[s].components
                == self.component_sets[s].components by {
                if !(push && s == id) {
                    assert(after.component_sets[s] == self.component_sets[s]);
                }
            }
        }
        assert(after.wiring() == self.wiring());
        if push {
            assert(after.dirty_sets@.drop_first() =~= self.dirty_sets@);
        }
        assert(after.net.links_wf()) by {
            assert(e.no_duplicates());
            assert forall|i: int| 0 <= i < e.len() implies (#[trigger] after.net.wires[e[i] as int]).next
                == (if i + 1 < e.len() {
                e[i + 1]
            } else {
                TAIL_INDEX
            }) by {
                assert(e[i] == d[i + 1]);
                assert(d[i + 1] != d[0]);
                assert(self.net.wires[d[i + 1] as int].next == (if i + 2 < d.len() {
                    d[i + 2]
                } else {
                    TAIL_INDEX
                }));
            }
            assert forall|x: int| 0 <= x < after.net.wires.len() implies ((
            #[trigger] after.net.wires[x]).next != NULL_INDEX <==> e.contains(x as usize)) by {
                if x == w {
                    if e.contains(x as usize) {
                        let i = choose|i: int| 0 <= i < e.len() && e[i] == x as usize;
                        assert(d[i + 1] == d[0]);
                    }
                } else {
                    if d.contains(x as usize) {
                        let i = choose|i: int| 0 <= i < d.len() && d[i] == x as usize;
                        assert(e[i - 1] == x as usize);
                    }
                    if e.contains(x as usize) {
                        let i = choose|i: int| 0 <= i < e.len() && e[i] == x as usize;
                        assert(d[i + 1] == x as usize);
                    }
                }
            }
            assert(self.net.wires[d[0] as int].next == (if 1 < d.len() {
                d[1]
            } else {
                TAIL_INDEX
            }));
        }
        assert(after.net.resolved()) by {
            assert forall|x: int|
                0 <= x < after.net.wires.len() && (#[trigger] after.net.wires[x]).next
                    == NULL_INDEX implies after.net.wires[x].voltage == resolution(
                after.net.wires[x].inputs@,
            ) by {
                if x != w {
                    assert(self.net.wires[x].next == NULL_INDEX);
                }
            }
        }
        assert(after.net.ports_wf()) by {
            assert forall|k: int, j: int|
                0 <= k < after.net.ports.len() && 0 <= j < after.net.ports[k].outputs@.len() && (
                #[trigger] after.net.ports[k].outputs@[j]).connected() implies {
                &&& after.net.ports[k].outputs@[j].wire_id < after.net.wires.len()
                &&& after.net.ports[k].outputs@[j].input_id
                    < after.net.wires[after.net.ports[k].outputs@[j].wire_id as int].inputs@.len()
            } by {
                let x = self.net.ports[k].outputs@[j].wire_id as int;
                assert(after.net.wires[x].inputs == self.net.wires[x].inputs);
            }
        }
        let ds = self.dirty_sets@;
        let es = after.dirty_sets@;
        assert(after.set_links_wf()) by {
            if push {
                assert(!ds.contains(id));
                assert forall|i: int| 0 <= i < es.len() implies (
                #[trigger] after.component_sets[es[i] as int]).next == (if i + 1 < es.len() {
                    es[i + 1]
                } else {
                    TAIL_INDEX
                }) by {
                    if i > 0 {
                        assert(es[i] == ds[i - 1]);
                        assert(ds.contains(ds[i - 1]));
                        assert(self.component_sets[ds[i - 1] as int].next == (if i < ds.len() {
                            ds[i]
                        } else {
                            TAIL_INDEX
                        }));
                    }
                }
                assert forall|x: int| 0 <= x < after.component_sets.len() implies ((
                #[trigger] after.component_sets[x]).next != NULL_INDEX <==> es.contains(
                    x as usize,
                )) by {
                    if x == id as int {
                        assert(es[0] == id);
                    } else {
                        if ds.contains(x as usize) {
                            let i = choose|i: int| 0 <= i < ds.len() && ds[i] == x as usize;
                            assert(es[i + 1] == x as usize);
                        }
                        if es.contains(x as usize) {
                            let i = choose|i: int| 0 <= i < es.len() && es[i] == x as usize;
                            assert(ds[i - 1] == x as usize);
                        }
                    }
                }
                assert(es.no_duplicates()) by {
                    assert forall|i: int, j: int|
                        0 <= i < es.len() && 0 <= j < es.len() && i != j implies es[i] != es[j] by {
                        if i > 0 && j > 0 {
                            assert(ds[i - 1] != ds[j - 1]);
                        } else if i > 0 {
                            assert(ds.contains(ds[i - 1]));
                        } else {
                            assert(ds.contains(ds[j - 1]));
                        }
                    }
                }
            } else {
                assert forall|i: int| 0 <= i < es.len() implies (
                #[trigger] after.component_sets[es[i] as int]).next == (if i + 1 < es.len() {
                    es[i + 1]
                } else {
                    TAIL_INDEX
                }) by {
                    assert(self.component_sets[ds[i] as int].next == (if i + 1 < ds.len() {
                        ds[i + 1]
                    } else {
                        TAIL_INDEX
                    }));
                }
            }
        }
        assert(after.accepting());
        if self.coherent() {
            assert forall|k: int| 0 <= k < after.num_components() implies #[trigger] after.settled(
                k,
            ) || after.pending(k) by {
                after.lemma_pending_kept(self, k);
                if self.settled(k) && !self.pending(k) {
                    if changed && self.wiring().reads(k, w) {
                        // k reads the wire that changed: its set is dirty now
                        let i = choose|i: int|
                            0 <= i < self.net.ports[k].inputs@.len() && self.net.ports[k].inputs@[i]
                                == w as usize;
                        assert(self.wiring().input_wires[k][i] == w as usize);
                        assert(self.wiring().sets[id as int].contains(k as usize));
                        let m = choose|m: int|
                            0 <= m < self.wiring().sets[id as int].len()
                                && self.wiring().sets[id as int][m] == k as usize;
                        if push {
                            assert(es[0] == id);
                            assert(after.wiring().sets[after.dirty_sets()[0] as int][m] == k);
                        } else {
                            assert(ds.contains(id));
                            let p = choose|p: int| 0 <= p < ds.len() && ds[p] == id;
                            assert(self.wiring().sets[self.dirty_sets()[p] as int][m] == k);
                        }
                        assert(after.pending(k));
                    } else {
                        assert(after.net.inputs_of(k) =~= self.net.inputs_of(k)) by {
                            assert forall|i: int|
                                0 <= i < self.net.ports[k].inputs@.len() implies after.net.voltage(
                                self.net.ports[k].inputs@[i] as int,
                            ) == self.net.voltage(self.net.ports[k].inputs@[i] as int) by {
                                let x = self.net.ports[k].inputs@[i];
                                assert(self.wiring().input_wires[k][i] == x);
                                if changed {
                                    assert(!self.wiring().input_wires[k].contains(w as usize));
                                    assert(x != w);
                                }
                            }
                        }
                        assert(after.net.outputs_of(k) =~= self.net.outputs_of(k)) by {
                            assert forall|j: int|
                                0 <= j < self.net.ports[k].outputs@.len() implies after.net.slot_at(
                                self.net.ports[k].outputs@[j],
                            ) == self.net.slot_at(self.net.ports[k].outputs@[j]) by {
                                let pin = self.net.ports[k].outputs@[j];
                                if pin.connected() {
                                    assert(after.net.wires[pin.wire_id as int].inputs
                                        == self.net.wires[pin.wire_id as int].inputs);
                                }
                            }
                        }
                        assert(after.settled(k));
                    }
                }
            }
        }
    }

    /// A component that waited for an update before a step that took no set
    /// off the stack of dirty sets waits for it after the step.
    proof fn lemma_pending_kept(&self, before: &Circuit, k: int)
        requires
            self.wiring() == before.wiring(),
            self.dirty_sets@ == before.dirty_sets@ || (self.dirty_sets@.len() > 0
                && self.dirty_sets@.drop_first() == before.dirty_sets@),
        ensures
            before.pending(k) ==> self.pending(k),
    {
        if before.pending(k) {
            let (p, i) = choose|p: int, i: int|
                0 <= p < before.dirty_sets().len() && 0 <= i < before.wiring().sets[before.dirty_sets()[p] as int].len()
                    && #[trigger] before.wiring().sets[before.dirty_sets()[p] as int][i] == k;
            if self.dirty_sets@ == before.dirty_sets@ {
                assert(self.wiring().sets[self.dirty_sets()[p] as int][i] == k);
            } else {
                assert(self.dirty_sets@[p + 1] == self.dirty_sets@.drop_first()[p]);
                assert(self.wiring().sets[self.dirty_sets()[p + 1] as int][i] == k);
            }
        }
    }

    /// Whether the voltage of wire `w` differs from the resolution of its
    /// slots.
    closed spec fn stale(&self, w: int) -> bool {
        self.net.wires[w].voltage != resolution(self.net.wires[w].inputs@)
    }

    /// Whether set `s` is the set of readers of one of the first `n` dirty
    /// wires whose voltage is stale.
    closed spec fn wakes(&self, s: usize, n: int) -> bool {
        exists|j: int|
            0 <= j < n && j < self.net.dirty@.len() && self.stale(self.net.dirty@[j] as int)
                && (#[trigger] self.net.wires[self.net.dirty@[j] as int]).invalidation_id == s
    }

    /// Resolves dirty wires until none is left.
    fn update_wires(&mut self)
        requires
            old(self).core_wf(),
        ensures
            final(self).core_wf(),
            final(self).wiring() == old(self).wiring(),
            final(self).components == old(self).components,
            final(self).iteration_count == old(self).iteration_count,
            final(self).tick_count == old(self).tick_count,
            final(self).net.dirty@.len() == 0,
            final(self).net.first_wire == TAIL_INDEX,
            final(self).net.ports == old(self).net.ports,
            final(self).net.wires.len() == old(self).net.wires.len(),
            forall|w: int|
                0 <= w < old(self).net.wires.len() ==> (#[trigger] final(self).net.wires[w]).inputs
                    == old(self).net.wires[w].inputs,
            old(self).coherent() ==> final(self).coherent(),
            old(self).is_stable() ==> *final(self) == *old(self),
            old(self).dirty_sets@.len() > 0 ==> final(self).dirty_sets@.len() > 0,
            forall|w: int|
                0 <= w < old(self).net.wires.len() ==> #[trigger] final(self).net().voltage(w)
                    == old(self).resolved_voltage(w),
            forall|s: usize| #[trigger]
                final(self).dirty_sets@.contains(s) <==> old(self).dirty_sets@.contains(s) || (s
                    != NULL_INDEX && old(self).wakes(s, old(self).net.dirty@.len() as int)),
    {
        let ghost done: int = 0;
        proof {
            assert(self.net.dirty@ =~= old(self).net.dirty@.subrange(
                0,
                old(self).net.dirty@.len() as int,
            ));
        }
        while self.net.first_wire != TAIL_INDEX
            invariant
                self.core_wf(),
                old(self).core_wf(),
                self.wiring() == old(self).wiring(),
                self.components == old(self).components,
                self.iteration_count == old(self).iteration_count,
                self.tick_count == old(self).tick_count,
                self.net.ports == old(self).net.ports,
                self.net.wires.len() == old(self).net.wires.len(),
                forall|w: int|
                    0 <= w < old(self).net.wires.len() ==> (#[trigger] self.net.wires[w]).inputs
                        == old(self).net.wires[w].inputs,
                old(self).coherent() ==> self.coherent(),
                old(self).is_stable() ==> *self == *old(self),
                old(self).dirty_sets@.len() > 0 ==> self.dirty_sets@.len() > 0,
                0 <= done <= old(self).net.dirty@.len(),
                self.net.dirty@ == old(self).net.dirty@.subrange(
                    done,
                    old(self).net.dirty@.len() as int,
                ),
                forall|w: int|
                    0 <= w < old(self).net.wires.len() ==> (#[trigger] self.net.wires[w]).voltage
                        == (if old(self).net.dirty@.subrange(0, done).contains(w as usize) {
                        resolution(old(self).net.wires[w].inputs@)
                    } else {
                        old(self).net.wires[w].voltage
                    }),
                forall|s: usize| #[trigger]
                    self.dirty_sets@.contains(s) <==> old(self).dirty_sets@.contains(s) || (s
                        != NULL_INDEX && old(self).wakes(s, done)),
            decreases self.net.dirty@.len(),
        {
            let ghost before = *self;
            let ghost head = self.net.first_wire;
            proof {
                assert(self.net.dirty@.len() > 0);
                assert(self.net.dirty@[0] == head);
                assert(old(self).net.dirty@[done] == head);
            }
            self.update_wire();
            proof {
                let d = old(self).net.dirty@;
                assert(self.net.dirty@ =~= d.subrange(done + 1, d.len() as int));
                // the wire just resolved was not resolved before
                assert(!d.subrange(0, done).contains(head)) by {
                    if d.subrange(0, done).contains(head) {
                        let shorter = d.subrange(0, done);
                        let j = choose|j: int| 0 <= j < shorter.len() && shorter[j] == head;
                        assert(d[j] == d[done]);
                    }
                }
                assert(before.net.wires[head as int].voltage == old(self).net.wires[head as int].voltage);
                assert forall|w: int| 0 <= w < old(self).net.wires.len() implies (
                #[trigger] self.net.wires[w]).voltage == (if d.subrange(0, done + 1).contains(
                    w as usize,
                ) {
                    resolution(old(self).net.wires[w].inputs@)
                } else {
                    old(self).net.wires[w].voltage
                }) by {
                    assert(d.subrange(0, done + 1)[done] == head);
                    if w == head as int {
                        assert(d.subrange(0, done + 1).contains(head));
                    } else {
                        assert(self.net.wires[w] == before.net.wires[w]);
                        if d.subrange(0, done + 1).contains(w as usize) {
                            let longer = d.subrange(0, done + 1);
                            let j = choose|j: int| 0 <= j < longer.len() && longer[j] == w as usize;
                            assert(d.subrange(0, done)[j] == w as usize);
                        }
                        if d.subrange(0, done).contains(w as usize) {
                            let shorter = d.subrange(0, done);
                            let j = choose|j: int|
                                0 <= j < shorter.len() && shorter[j] == w as usize;
                            assert(d.subrange(0, done + 1)[j] == w as usize);
                        }
                    }
                }
                assert forall|s: usize| #[trigger]
                    self.dirty_sets@.contains(s) <==> old(self).dirty_sets@.contains(s) || (s
                        != NULL_INDEX && old(self).wakes(s, done + 1)) by {
                    assert(before.dirty_sets@.contains(s) <==> old(self).dirty_sets@.contains(s)
                        || (s != NULL_INDEX && old(self).wakes(s, done)));
                    let fresh = s != NULL_INDEX && s == before.net.wires[head as int].invalidation_id
                        && before.net.wires[head as int].voltage != resolution(
                        before.net.wires[head as int].inputs@,
                    );
                    assert(self.dirty_sets@.contains(s) <==> before.dirty_sets@.contains(s)
                        || fresh);
                    assert(before.net.wires[head as int].invalidation_id == old(self).net.wires[head as int].invalidation_id) by {
                        assert(before.wiring().set_ids[head as int] == old(self).wiring().set_ids[head as int]);
                    }
                    if fresh {
                        assert(old(self).stale(d[done] as int));
                        assert(old(self).net.wires[d[done] as int].invalidation_id == s);
                        assert(old(self).wakes(s, done + 1));
                    }
                    if old(self).wakes(s, done) {
                        let j = choose|j: int|
                            0 <= j < done && j < d.len() && old(self).stale(d[j] as int) && (
                            #[trigger] old(self).net.wires[d[j] as int]).invalidation_id == s;
                        assert(old(self).wakes(s, done + 1));
                    }
                    if old(self).wakes(s, done + 1) && !old(self).wakes(s, done) {
                        let j = choose|j: int|
                            0 <= j < done + 1 && j < d.len() && old(self).stale(d[j] as int) && (
                            #[trigger] old(self).net.wires[d[j] as int]).invalidation_id == s;
                        assert(j == done);
                    }
                }
                done = done + 1;
            }
        }
        proof {
            let d = old(self).net.dirty@;
            assert(d.subrange(0, done) =~= d);
            assert forall|w: int| 0 <= w < old(self).net.wires.len() implies #[trigger] self.net().voltage(
                w,
            ) == old(self).resolved_voltage(w) by {
                assert(self.net.wires[w].voltage == (if d.subrange(0, done).contains(w as usize) {
                    resolution(old(self).net.wires[w].inputs@)
                } else {
                    old(self).net.wires[w].voltage
                }));
            }
        }
    }
}

impl Circuit {
    /// Whether component `k` is still to come in this round of updates: it
    /// is a member of the top dirty set at position `from` or behind, or a
    /// member of a dirty set below the top.
    closed spec fn waiting(&self, k: int, from: int) -> bool {
        exists|p: int, i: int|
            0 <= p < self.dirty_sets@.len() && 0 <= i < self.wiring().sets[self.dirty_sets@[p] as int].len()
                && (p == 0 ==> i >= from) && #[trigger] self.wiring().sets[self.dirty_sets@[p] as int][i]
                == k
    }

    /// Every component drives what it should or is still to come, and every
    /// component that carries the tag `iteration` drives what it should.
    closed spec fn coherent_from(&self, from: int, iteration: usize) -> bool {
        &&& forall|k: int|
            0 <= k < self.components.len() ==> #[trigger] self.settled(k) || self.waiting(k, from)
        &&& forall|k: int|
            0 <= k < self.components.len() && (#[trigger] self.components[k]).iteration
                == iteration ==> self.settled(k)
    }

    /// The state `after` is the state `self` with component `k` exposed
    /// (which is `mid`) and updated: the invariant carries over, component `k`
    /// drives what it should, and nothing changes for any other component.
    proof fn lemma_component_updated(&self, mid: ComponentInterface, after: Circuit, k: int)
        requires
            self.core_wf(),
            0 <= k < self.components.len(),
            mid.wires == self.net.wires,
            mid.ports == self.net.ports,
            mid.first_wire == self.net.first_wire,
            mid.dirty == self.net.dirty,
            mid.current == k,
            after.net.wf(),
            after.net.frame() == mid.frame(),
            after.net.inputs() == mid.inputs(),
            after.net.outputs().len() == mid.outputs().len(),
            agrees(
                after.net.outputs(),
                after.components[k].component_impl.driven(mid.inputs(), mid.outputs().len()),
            ),
            forall|n: nat, m: nat| #[trigger]
                after.components[k].component_impl.accepts(n, m)
                    == self.components[k].component_impl.accepts(n, m),
            self.components[k].component_impl.same_make(after.components[k].component_impl),
            after.components.len() == self.components.len(),
            forall|x: int|
                0 <= x < self.components.len() && x != k ==> after.components[x]
                    == self.components[x],
            after.component_sets == self.component_sets,
            after.dirty_sets == self.dirty_sets,
            after.first_component_set == self.first_component_set,
        ensures
            after.core_wf(),
            after.wiring() == self.wiring(),
            after.settled(k),
            forall|x: int|
                0 <= x < self.components.len() && x != k ==> after.settled(x) == self.settled(x),
            forall|w: int|
                0 <= w < self.net.wires.len() ==> after.net.voltage(w) == self.net.voltage(w),
            after.net.wires.len() == self.net.wires.len(),
            after.continues(self),
            forall|x: int|
                0 <= x < self.components.len() ==> #[trigger] after.net.inputs_of(x)
                    == self.net.inputs_of(x),
            forall|x: int|
                0 <= x < self.components.len() && x != k ==> #[trigger] after.net.outputs_of(x)
                    == self.net.outputs_of(x),
            after.net.outputs_of(k) == after.net.outputs(),
            self.net.outputs_of(k) == mid.outputs(),
            self.net.inputs_of(k) == mid.inputs(),
            forall|w: int|
                0 <= w < self.net.wires.len() ==> (#[trigger] after.net.wires[w]).inputs@.len()
                    == self.net.wires[w].inputs@.len(),
            forall|w: int, s: int|
                0 <= w < self.net.wires.len() && 0 <= s < self.net.wires[w].inputs@.len()
                    && !mid.owns(w, s) ==> #[trigger] after.net.wires[w].inputs@[s]
                    == self.net.wires[w].inputs@[s],
    {
        assert(mid.net_wf());
        assert(self.net.outputs_of(k) =~= mid.outputs());
        assert(self.net.inputs_of(k) =~= mid.inputs());
        assert(after.net.current == k) by {
            assert(after.net.frame().current == mid.frame().current);
        }
        assert(after.net.wires.len() == self.net.wires.len()) by {
            assert(after.net.frame().voltages.len() == after.net.num_wires());
            assert(mid.frame().voltages.len() == mid.num_wires());
        }
        assert(after.net.ports.len() == self.net.ports.len()) by {
            assert(after.net.frame().input_wires.len() == after.net.num_components());
            assert(mid.frame().input_wires.len() == mid.num_components());
        }
        assert forall|w: int| 0 <= w < self.net.wires.len() implies (#[trigger] after.net.slots(w)).len()
            == mid.slots(w).len() by {
            assert(after.net.frame().foreign[w].len() == after.net.slots(w).len());
            assert(mid.frame().foreign[w].len() == mid.slots(w).len());
        }
        assert forall|w: int| 0 <= w < self.net.wires.len() implies #[trigger] after.net.voltage(w)
            == self.net.voltage(w) by {
            assert(after.net.frame().voltages[w] == after.net.voltage(w));
            assert(mid.frame().voltages[w] == mid.voltage(w));
        }
        assert forall|w: int| 0 <= w < self.net.wires.len() implies #[trigger] after.net.set_id(w)
            == mid.set_id(w) by {
            assert(after.net.frame().set_ids[w] == after.net.set_id(w));
            assert(mid.frame().set_ids[w] == mid.set_id(w));
        }
        assert(after.wiring().set_ids =~= self.wiring().set_ids) by {
            assert forall|w: int| 0 <= w < self.net.wires.len() implies after.net.wires[w].invalidation_id
                == self.net.wires[w].invalidation_id by {
                assert(after.net.set_id(w) == mid.set_id(w));
            }
        }
        assert(after.wiring().slot_counts =~= self.wiring().slot_counts) by {
            assert forall|w: int| 0 <= w < self.net.wires.len() implies after.net.wires[w].inputs@.len()
                == self.net.wires[w].inputs@.len() by {
                assert(after.net.slots(w).len() == mid.slots(w).len());
            }
        }
        assert forall|x: int| 0 <= x < self.components.len() implies after.net.input_wires(x)
            == mid.input_wires(x) && after.net.output_pins(x) == mid.output_pins(x)
            && after.net.inputs_of(x) == mid.inputs_of(x) && (x != k ==> after.net.outputs_of(x)
            == mid.outputs_of(x)) by {
            mid.lemma_frame(&after.net, x);
        }
        assert forall|w: int| 0 <= w < self.net.wires.len() implies (
        #[trigger] after.net.wires[w]).inputs@.len() == self.net.wires[w].inputs@.len() by {
            assert(after.net.slots(w).len() == mid.slots(w).len());
        }
        assert forall|w: int, s: int|
            0 <= w < self.net.wires.len() && 0 <= s < self.net.wires[w].inputs@.len()
                && !mid.owns(w, s) implies #[trigger] after.net.wires[w].inputs@[s]
            == self.net.wires[w].inputs@[s] by {
            assert(after.net.frame().foreign[w].len() == after.net.slots(w).len());
            assert(mid.frame().foreign[w].len() == mid.slots(w).len());
            assert(after.net.frame().foreign[w][s] == mid.frame().foreign[w][s]);
            assert(after.net.owns(w, s) == mid.owns(w, s)) by {
                assert(after.net.frame().output_pins[k] == mid.frame().output_pins[k]);
            }
        }
        assert(after.wiring().input_wires =~= self.wiring().input_wires) by {
            assert forall|x: int| 0 <= x < self.components.len() implies after.net.ports[x].inputs@
                == self.net.ports[x].inputs@ by {
                assert(after.net.input_wires(x) == mid.input_wires(x));
            }
        }
        assert(after.wiring().output_pins =~= self.wiring().output_pins) by {
            assert forall|x: int| 0 <= x < self.components.len() implies after.net.ports[x].outputs@
                == self.net.ports[x].outputs@ by {
                assert(after.net.output_pins(x) == mid.output_pins(x));
            }
        }
        assert(after.wiring().sets =~= self.wiring().sets);
        assert(after.wiring() == self.wiring());
        assert(after.set_links_wf());
        assert(after.accepting()) by {
            assert forall|x: int| 0 <= x < after.components.len() implies (
            #[trigger] after.components[x]).component_impl.accepts(
                after.net.ports[x].inputs@.len(),
                after.net.ports[x].outputs@.len(),
            ) by {
                assert(self.components[x].component_impl.accepts(
                    self.net.ports[x].inputs@.len(),
                    self.net.ports[x].outputs@.len(),
                ));
                assert(after.net.input_wires(x) == mid.input_wires(x));
            }
        }
        assert(after.settled(k)) by {
            assert(after.net.inputs_of(k) == mid.inputs_of(k));
            assert(after.net.output_pins(k) == mid.output_pins(k));
        }
        assert forall|x: int| 0 <= x < self.components.len() && x != k implies after.settled(x)
            == self.settled(x) by {
            assert(after.net.outputs_of(x) == mid.outputs_of(x));
            assert(mid.outputs_of(x) =~= self.net.outputs_of(x));
            assert(mid.inputs_of(x) =~= self.net.inputs_of(x));
        }
        assert forall|x: int| 0 <= x < self.components.len() implies #[trigger] after.net.inputs_of(
            x,
        ) == self.net.inputs_of(x) by {
            assert(after.net.inputs_of(x) == mid.inputs_of(x));
            assert(mid.inputs_of(x) =~= self.net.inputs_of(x));
        }
        assert forall|x: int|
            0 <= x < self.components.len() && x != k implies #[trigger] after.net.outputs_of(x)
            == self.net.outputs_of(x) by {
            assert(after.net.outputs_of(x) == mid.outputs_of(x));
            assert(mid.outputs_of(x) =~= self.net.outputs_of(x));
        }
        assert(after.net.outputs_of(k) =~= after.net.outputs());
    }

    /// Whether component `k` is what an update makes of the component that
    /// it is in `before`, and drives what that update drives.
    closed spec fn exact_update(&self, before: &Circuit, k: int) -> bool {
        let inputs = before.net.inputs_of(k);
        &&& self.components[k].component_impl == before.components[k].component_impl.updated(
            inputs,
        )
        &&& self.net.outputs_of(k) == overlay(
            before.net.outputs_of(k),
            self.components[k].component_impl.driven(inputs, before.net.outputs_of(k).len()),
        )
    }

    /// Whether component `k` and what it drives are as they are in `before`.
    closed spec fn untouched(&self, before: &Circuit, k: int) -> bool {
        &&& self.components[k].component_impl == before.components[k].component_impl
        &&& self.net.outputs_of(k) == before.net.outputs_of(k)
    }

    /// Whether every slot that is behind no pin holds what it holds in
    /// `before`.
    closed spec fn unpinned_kept(&self, before: &Circuit) -> bool {
        forall|w: int, s: int|
            0 <= w < self.net.wires.len() && 0 <= s < self.net.wires[w].inputs@.len()
                && !before.net.pinned(w, s) ==> #[trigger] self.net.wires[w].inputs@[s]
                == before.net.wires[w].inputs@[s]
    }

    /// How far a round of updates that started from `start` has come: the
    /// components with the tag `iteration` were members of a dirty set and are
    /// updated, the others are as they were, and every member of a dirty set
    /// is updated or still to come.
    closed spec fn progress(&self, start: &Circuit, iteration: usize, from: int) -> bool {
        &&& self.components.len() == start.components.len()
        &&& self.wiring() == start.wiring()
        &&& self.net.wires.len() == start.net.wires.len()
        &&& forall|k: int|
            0 <= k < self.components.len() && (#[trigger] self.components[k]).iteration == iteration
                ==> start.pending(k) && (!(start.components[k].component_impl is Custom)
                ==> self.exact_update(start, k))
        &&& forall|k: int|
            0 <= k < self.components.len() && (#[trigger] self.components[k]).iteration != iteration
                ==> self.untouched(start, k)
        &&& start.library_only() ==> self.net.tidy(&start.net)
        &&& self.unpinned_kept(start)
        &&& forall|k: int|
            0 <= k < self.components.len() && #[trigger] start.pending(k)
                ==> self.components[k].iteration == iteration || self.waiting(k, from)
        &&& exists|popped: int|
            0 <= popped <= start.dirty_sets@.len() && self.dirty_sets@
                == #[trigger] start.dirty_sets@.subrange(popped, start.dirty_sets@.len() as int)
    }

    /// At its start a round of updates has come nowhere.
    proof fn lemma_progress_start(&self, iteration: usize)
        requires
            self.core_wf(),
            self.tags_below(iteration as int),
            iteration < usize::MAX,
        ensures
            self.progress(self, iteration, 0),
    {
        self.net.lemma_untouched();
        assert forall|k: int|
            0 <= k < self.components.len() && (#[trigger] self.components[k]).iteration
                != iteration implies self.untouched(self, k) by {}
        assert(self.dirty_sets@ =~= self.dirty_sets@.subrange(0, self.dirty_sets@.len() as int));
        assert forall|k: int| 0 <= k < self.components.len() && #[trigger] self.pending(k) implies self.waiting(
            k,
            0,
        ) by {
            let (p, i) = choose|p: int, i: int|
                0 <= p < self.dirty_sets().len() && 0 <= i
                    < self.wiring().sets[self.dirty_sets()[p] as int].len()
                    && #[trigger] self.wiring().sets[self.dirty_sets()[p] as int][i] == k;
            assert(self.wiring().sets[self.dirty_sets@[p] as int][i] == k);
        }
    }

    /// A member of the top dirty set that carries the tag already is passed
    /// over.
    proof fn lemma_progress_skip(&self, start: &Circuit, iteration: usize, idx: int)
        requires
            self.progress(start, iteration, idx),
            self.dirty_sets@.len() > 0,
            0 <= idx < self.wiring().sets[self.dirty_sets@[0] as int].len(),
            0 <= self.wiring().sets[self.dirty_sets@[0] as int][idx] < self.components.len(),
            self.components[self.wiring().sets[self.dirty_sets@[0] as int][idx] as int].iteration
                == iteration,
        ensures
            self.progress(start, iteration, idx + 1),
    {
        let c = self.wiring().sets[self.dirty_sets@[0] as int][idx] as int;
        assert forall|k: int| 0 <= k < self.components.len() && #[trigger] start.pending(k) implies self.components[k].iteration
            == iteration || self.waiting(k, idx + 1) by {
            if self.components[k].iteration != iteration {
                assert(self.waiting(k, idx));
                let (p, i) = choose|p: int, i: int|
                    0 <= p < self.dirty_sets@.len() && 0 <= i
                        < self.wiring().sets[self.dirty_sets@[p] as int].len() && (p == 0 ==> i
                        >= idx) && #[trigger] self.wiring().sets[self.dirty_sets@[p] as int][i]
                        == k;
                assert(!(p == 0 && i == idx));
                assert(self.wiring().sets[self.dirty_sets@[p] as int][i] == k);
            }
        }
        let popped = choose|popped: int|
            0 <= popped <= start.dirty_sets@.len() && self.dirty_sets@
                == #[trigger] start.dirty_sets@.subrange(popped, start.dirty_sets@.len() as int);
        assert(self.dirty_sets@ == start.dirty_sets@.subrange(
            popped,
            start.dirty_sets@.len() as int,
        ));
    }

    /// The state `after` is the state `self` with member `idx` of the top
    /// dirty set, component `c`, exposed (which is `mid`) and updated.
    proof fn lemma_progress_update(
        &self,
        mid: ComponentInterface,
        after: Circuit,
        start: &Circuit,
        iteration: usize,
        idx: int,
        c: int,
    )
        requires
            self.core_wf(),
            self.progress(start, iteration, idx),
            forall|w: int|
                0 <= w < start.net.wires.len() ==> self.net.voltage(w) == start.net.voltage(w),
            self.dirty_sets@.len() > 0,
            0 <= idx < self.wiring().sets[self.dirty_sets@[0] as int].len(),
            c == self.wiring().sets[self.dirty_sets@[0] as int][idx],
            0 <= c < self.components.len(),
            self.components[c].iteration != iteration,
            after.components[c].iteration == iteration,
            mid.wires == self.net.wires,
            mid.ports == self.net.ports,
            mid.current == c,
            after.core_wf(),
            after.wiring() == self.wiring(),
            after.components.len() == self.components.len(),
            forall|x: int|
                0 <= x < self.components.len() && x != c ==> after.components[x]
                    == self.components[x],
            after.dirty_sets == self.dirty_sets,
            after.net.wires.len() == self.net.wires.len(),
            forall|x: int|
                0 <= x < self.components.len() ==> #[trigger] after.net.inputs_of(x)
                    == self.net.inputs_of(x),
            forall|x: int|
                0 <= x < self.components.len() && x != c ==> #[trigger] after.net.outputs_of(x)
                    == self.net.outputs_of(x),
            after.net.outputs_of(c) == after.net.outputs(),
            self.net.outputs_of(c) == mid.outputs(),
            self.net.inputs_of(c) == mid.inputs(),
            forall|w: int|
                0 <= w < self.net.wires.len() ==> (#[trigger] after.net.wires[w]).inputs@.len()
                    == self.net.wires[w].inputs@.len(),
            forall|w: int, s: int|
                0 <= w < self.net.wires.len() && 0 <= s < self.net.wires[w].inputs@.len()
                    && !mid.owns(w, s) ==> #[trigger] after.net.wires[w].inputs@[s]
                    == self.net.wires[w].inputs@[s],
            !(self.components[c].component_impl is Custom) ==> {
                &&& after.components[c].component_impl
                    == self.components[c].component_impl.updated(mid.inputs())
                &&& after.net.outputs() == overlay(
                    mid.outputs(),
                    after.components[c].component_impl.driven(mid.inputs(), mid.outputs().len()),
                )
                &&& after.net.tidy(&mid)
            },
        ensures
            after.progress(start, iteration, idx + 1),
    {
        let popped = choose|popped: int|
            0 <= popped <= start.dirty_sets@.len() && self.dirty_sets@
                == #[trigger] start.dirty_sets@.subrange(popped, start.dirty_sets@.len() as int);
        assert(after.dirty_sets@ == start.dirty_sets@.subrange(
            popped,
            start.dirty_sets@.len() as int,
        ));
        assert(self.untouched(start, c));
        assert(self.net.inputs_of(c) =~= start.net.inputs_of(c)) by {
            assert(self.wiring().input_wires[c] == start.wiring().input_wires[c]);
            assert forall|i: int| 0 <= i < self.net.ports[c].inputs@.len() implies self.net.voltage(
                self.net.ports[c].inputs@[i] as int,
            ) == start.net.voltage(self.net.ports[c].inputs@[i] as int) by {
                assert(self.net.ports[c].inputs@[i] < self.net.wires.len());
            }
        }
        // component c was a member of a dirty set at the start
        assert(start.pending(c)) by {
            assert(self.dirty_sets@[0] == start.dirty_sets@[popped]);
            assert(start.wiring().sets[start.dirty_sets()[popped] as int][idx] == c);
        }
        assert forall|k: int|
            0 <= k < after.components.len() && (#[trigger] after.components[k]).iteration
                == iteration implies start.pending(k) && (
        !(start.components[k].component_impl is Custom) ==> after.exact_update(start, k)) by {
            if k != c {
                assert(self.components[k].iteration == iteration);
                if !(start.components[k].component_impl is Custom) {
                    assert(self.exact_update(start, k));
                }
            }
        }
        assert forall|k: int|
            0 <= k < after.components.len() && (#[trigger] after.components[k]).iteration
                != iteration implies after.untouched(start, k) by {
            assert(self.components[k].iteration != iteration);
            assert(self.untouched(start, k));
        }
        // the slots that component c owns were not written since the start
        assert forall|w: int, s: int|
            0 <= w < mid.wires.len() && 0 <= s < mid.wires[w].inputs@.len() && mid.owns(
                w,
                s,
            ) implies #[trigger] mid.wires[w].inputs@[s] == start.net.wires[w].inputs@[s] by {
            let j = choose|j: int|
                0 <= j < mid.output_pins(mid.current()).len() && #[trigger] mid.output_pins(
                    mid.current(),
                )[j] == (Pin { wire_id: w as usize, input_id: s as usize });
            let pin = Pin { wire_id: w as usize, input_id: s as usize };
            assert(self.wiring().output_pins[c] == start.wiring().output_pins[c]);
            assert(self.net.ports[c].outputs@ == start.net.ports[c].outputs@);
            assert(self.net.output_pins(c)[j] == pin);
            assert(start.net.output_pins(c)[j] == pin);
            assert(pin.connected());
            assert(self.net.outputs_of(c)[j] == self.net.slot_at(pin));
            assert(start.net.outputs_of(c)[j] == start.net.slot_at(pin));
            assert(self.net.slot_at(pin) == Some(self.net.slots(w)[s]));
            assert(start.net.slot_at(pin) == Some(start.net.slots(w)[s]));
        }
        assert forall|w: int| 0 <= w < self.net.wires.len() implies self.net.wires[w].inputs@.len()
            == start.net.wires[w].inputs@.len() by {
            assert(self.wiring().slot_counts[w] == start.wiring().slot_counts[w]);
        }
        if start.library_only() {
            assert(!(start.component(c) is Custom));
            assert(mid.tidy(&start.net));
            mid.lemma_tidy_chain(&start.net, &after.net);
        }
        assert(after.unpinned_kept(start)) by {
            assert forall|w: int, s: int|
                0 <= w < after.net.wires.len() && 0 <= s < after.net.wires[w].inputs@.len()
                    && !start.net.pinned(w, s) implies #[trigger] after.net.wires[w].inputs@[s]
                == start.net.wires[w].inputs@[s] by {
                if mid.owns(w, s) {
                    let j = choose|j: int|
                        0 <= j < mid.output_pins(mid.current()).len() && #[trigger] mid.output_pins(
                            mid.current(),
                        )[j] == (Pin { wire_id: w as usize, input_id: s as usize });
                    assert(self.wiring().output_pins[c] == start.wiring().output_pins[c]);
                    assert(start.net.output_pins(c)[j] == (Pin {
                        wire_id: w as usize,
                        input_id: s as usize,
                    }));
                    assert(start.net.pinned(w, s));
                }
                assert(self.net.wires[w].inputs@[s] == start.net.wires[w].inputs@[s]);
            }
        }
        assert forall|k: int| 0 <= k < after.components.len() && #[trigger] start.pending(k) implies after.components[k].iteration
            == iteration || after.waiting(k, idx + 1) by {
            if k != c && self.components[k].iteration != iteration {
                assert(self.waiting(k, idx));
                let (p, i) = choose|p: int, i: int|
                    0 <= p < self.dirty_sets@.len() && 0 <= i
                        < self.wiring().sets[self.dirty_sets@[p] as int].len() && (p == 0 ==> i
                        >= idx) && #[trigger] self.wiring().sets[self.dirty_sets@[p] as int][i]
                        == k;
                assert(after.wiring().sets[after.dirty_sets@[p] as int][i] == k);
            }
        }
    }

    /// When no dirty set is left, every component that was a member of one
    /// is updated, and the others are as they were.
    proof fn lemma_progress_end(&self, start: &Circuit, iteration: usize)
        requires
            self.progress(start, iteration, 0),
            self.dirty_sets@.len() == 0,
        ensures
            forall|k: int|
                0 <= k < start.components.len() && !(start.components[k].component_impl is Custom)
                    && #[trigger] start.pending(k) ==> self.exact_update(start, k),
            forall|k: int|
                0 <= k < start.components.len() && !(#[trigger] start.pending(k))
                    ==> self.untouched(start, k),
            start.library_only() ==> self.net.tidy(&start.net),
            self.unpinned_kept(start),
    {
        assert forall|k: int|
            0 <= k < start.components.len() && !(start.components[k].component_impl is Custom)
                && #[trigger] start.pending(k) implies self.exact_update(start, k) by {
            assert(self.components[k].iteration == iteration || self.waiting(k, 0));
        }
        assert forall|k: int|
            0 <= k < start.components.len() && !(#[trigger] start.pending(k)) implies self.untouched(
            start,
            k,
        ) by {
            if self.components[k].iteration == iteration {
                assert(start.pending(k));
            }
        }
    }

    /// Updates the members of the dirty sets, each component once, until no
    /// set is left on the stack.
    fn update_components(&mut self, iteration: usize)
        requires
            old(self).core_wf(),
            old(self).tags_below(iteration as int),
            iteration < usize::MAX,
        ensures
            final(self).core_wf(),
            final(self).tags_below(iteration + 1),
            final(self).wiring() == old(self).wiring(),
            final(self).iteration_count == old(self).iteration_count,
            final(self).tick_count == old(self).tick_count,
            final(self).dirty_sets@.len() == 0,
            final(self).first_component_set == TAIL_INDEX,
            final(self).continues(old(self)),
            final(self).net.wires.len() == old(self).net.wires.len(),
            forall|w: int|
                0 <= w < old(self).net.wires.len() ==> final(self).net.voltage(w) == old(
                    self,
                ).net.voltage(w),
            old(self).coherent() ==> final(self).coherent(),
            old(self).dirty_sets@.len() == 0 ==> *final(self) == *old(self),
            forall|k: int|
                0 <= k < old(self).components.len() && !(
                old(self).components[k].component_impl is Custom) && #[trigger] old(self).pending(
                    k,
                ) ==> final(self).exact_update(old(self), k),
            forall|k: int|
                0 <= k < old(self).components.len() && !(#[trigger] old(self).pending(k))
                    ==> final(self).untouched(old(self), k),
            old(self).library_only() ==> final(self).net.tidy(&old(self).net),
            final(self).unpinned_kept(old(self)),
    {
        let ghost track = self.coherent();
        proof {
            self.lemma_progress_start(iteration);
        }
        proof {
            if track {
                assert forall|k: int| 0 <= k < self.components.len() implies #[trigger] self.settled(
                    k,
                ) || self.waiting(k, 0) by {
                    if self.pending(k) {
                        let (p, i) = choose|p: int, i: int|
                            0 <= p < self.dirty_sets().len() && 0 <= i
                                < self.wiring().sets[self.dirty_sets()[p] as int].len()
                                && #[trigger] self.wiring().sets[self.dirty_sets()[p] as int][i]
                                == k;
                        assert(self.wiring().sets[self.dirty_sets@[p] as int][i] == k);
                    }
                }
            }
        }
        while self.first_component_set != TAIL_INDEX
            invariant
                self.core_wf(),
                self.tags_below(iteration + 1),
                iteration < usize::MAX,
                self.continues(old(self)),
                self.wiring() == old(self).wiring(),
                self.iteration_count == old(self).iteration_count,
                self.tick_count == old(self).tick_count,
                self.net.wires.len() == old(self).net.wires.len(),
                forall|w: int|
                    0 <= w < old(self).net.wires.len() ==> self.net.voltage(w) == old(self).net.voltage(w),
                track == old(self).coherent(),
                track ==> self.coherent_from(0, iteration),
                old(self).dirty_sets@.len() == 0 ==> *self == *old(self),
                self.progress(old(self), iteration, 0),
            decreases self.dirty_sets@.len(),
        {
            let set_id: usize = self.first_component_set;
            proof {
                assert(self.dirty_sets@.len() > 0);
                assert(self.dirty_sets@[0] == set_id);
            }
            let n: usize = self.component_sets[set_id].components.len();
            let ghost sets = self.dirty_sets@;
            let mut idx: usize = 0;
            while idx < n
                invariant
                    0 <= idx <= n,
                    self.core_wf(),
                    self.tags_below(iteration + 1),
                    iteration < usize::MAX,
                    self.continues(old(self)),
                    self.wiring() == old(self).wiring(),
                    self.iteration_count == old(self).iteration_count,
                    self.tick_count == old(self).tick_count,
                    self.net.wires.len() == old(self).net.wires.len(),
                    forall|w: int|
                        0 <= w < old(self).net.wires.len() ==> self.net.voltage(w) == old(self).net.voltage(w),
                    self.dirty_sets@ == sets,
                    sets.len() > 0,
                    sets[0] == set_id,
                    self.first_component_set == set_id,
                    set_id < self.component_sets.len(),
                    n == self.component_sets[set_id as int].components@.len(),
                    track ==> self.coherent_from(idx as int, iteration),
                    self.progress(old(self), iteration, idx as int),
                decreases n - idx,
            {
                let component_id: usize = self.component_sets[set_id].components.get(idx);
                proof {
                    assert(self.wiring().sets[set_id as int][idx as int] == component_id);
                }
                let ghost before = *self;
                if self.components[component_id].iteration != iteration {
                    let component = &mut self.components[component_id];
                    component.iteration = iteration;
                    self.net.current = component_id;
                    let ghost mid = self.net;
                    proof {
                        assert(before.components[component_id as int].component_impl.accepts(
                            before.net.ports[component_id as int].inputs@.len(),
                            before.net.ports[component_id as int].outputs@.len(),
                        ));
                        assert(mid.inputs().len() == mid.input_wires(component_id as int).len());
                    }
                    component.component_impl.update(&mut self.net);
                    proof {
                        before.lemma_component_updated(mid, *self, component_id as int);
                        self.lemma_continues(&before, old(self));
                        before.lemma_progress_update(
                            mid,
                            *self,
                            old(self),
                            iteration,
                            idx as int,
                            component_id as int,
                        );
                    }
                } else {
                    proof {
                        self.lemma_progress_skip(old(self), iteration, idx as int);
                    }
                }
                proof {
                    if track {
                        assert(self.settled(component_id as int));
                        assert forall|k: int| 0 <= k < self.components.len() implies #[trigger] self.settled(
                            k,
                        ) || self.waiting(k, idx + 1) by {
                            if k != component_id as int && !self.settled(k) {
                                assert(!before.settled(k));
                                assert(before.waiting(k, idx as int));
                                let (p, i) = choose|p: int, i: int|
                                    0 <= p < before.dirty_sets@.len() && 0 <= i
                                        < before.wiring().sets[before.dirty_sets@[p] as int].len()
                                        && (p == 0 ==> i >= idx) && #[trigger] before.wiring().sets[before.dirty_sets@[p] as int][i]
                                        == k;
                                assert(self.wiring().sets[self.dirty_sets@[p] as int][i] == k);
                            }
                        }
                    }
                }
                idx += 1;
            }
            let ghost before = *self;
            let component_set = &mut self.component_sets[set_id];
            self.first_component_set = component_set.next;
            component_set.next = NULL_INDEX;
            proof {
                self.dirty_sets@ = self.dirty_sets@.drop_first();
                before.lemma_set_popped(*self, iteration, track);
                before.lemma_progress_pop(*self, old(self), iteration);
            }
        }
        proof {
            if track {
                assert forall|k: int| 0 <= k < self.num_components() implies #[trigger] self.settled(
                    k,
                ) || self.pending(k) by {
                    if self.waiting(k, 0) {
                    }
                }
            }
            self.lemma_progress_end(old(self), iteration);
        }
    }

    /// Once every member of the top dirty set is dealt with, the set can
    /// go.
    proof fn lemma_progress_pop(&self, after: Circuit, start: &Circuit, iteration: usize)
        requires
            self.dirty_sets@.len() > 0,
            0 <= self.dirty_sets@[0] < self.component_sets.len(),
            self.progress(
                start,
                iteration,
                self.component_sets[self.dirty_sets@[0] as int].components@.len() as int,
            ),
            after.net == self.net,
            after.components == self.components,
            after.wiring() == self.wiring(),
            after.dirty_sets@ == self.dirty_sets@.drop_first(),
        ensures
            after.progress(start, iteration, 0),
    {
        let ds = self.dirty_sets@;
        let es = after.dirty_sets@;
        let n = self.component_sets[ds[0] as int].components@.len() as int;
        assert(self.wiring().sets[ds[0] as int] == self.component_sets[ds[0] as int].components@);
        let popped = choose|popped: int|
            0 <= popped <= start.dirty_sets@.len() && self.dirty_sets@
                == #[trigger] start.dirty_sets@.subrange(popped, start.dirty_sets@.len() as int);
        assert(es =~= start.dirty_sets@.subrange(popped + 1, start.dirty_sets@.len() as int));
        assert forall|k: int|
            0 <= k < after.components.len() && (#[trigger] after.components[k]).iteration
                == iteration implies start.pending(k) && (
        !(start.components[k].component_impl is Custom) ==> after.exact_update(start, k)) by {
            assert(self.components[k].iteration == iteration);
            if !(start.components[k].component_impl is Custom) {
                assert(self.exact_update(start, k));
            }
        }
        assert forall|k: int|
            0 <= k < after.components.len() && (#[trigger] after.components[k]).iteration
                != iteration implies after.untouched(start, k) by {
            assert(self.untouched(start, k));
        }
        assert forall|k: int| 0 <= k < after.components.len() && #[trigger] start.pending(k) implies after.components[k].iteration
            == iteration || after.waiting(k, 0) by {
            if self.components[k].iteration != iteration {
                assert(self.waiting(k, n));
                let (p, i) = choose|p: int, i: int|
                    0 <= p < self.dirty_sets@.len() && 0 <= i
                        < self.wiring().sets[self.dirty_sets@[p] as int].len() && (p == 0 ==> i
                        >= n) && #[trigger] self.wiring().sets[self.dirty_sets@[p] as int][i]
                        == k;
                assert(p > 0);
                assert(es[p - 1] == ds[p]);
                assert(after.wiring().sets[after.dirty_sets@[p - 1] as int][i] == k);
            }
        }
        assert(after.unpinned_kept(start));
    }

    /// The state `after` is the state `self` with the top of the stack of
    /// dirty sets popped after each of its members was updated.
    proof fn lemma_set_popped(&self, after: Circuit, iteration: usize, track: bool)
        requires
            self.core_wf(),
            self.dirty_sets@.len() > 0,
            track ==> self.coherent_from(
                self.component_sets[self.dirty_sets@[0] as int].components@.len() as int,
                iteration,
            ),
            after.net == self.net,
            after.components == self.components,
            after.component_sets.len() == self.component_sets.len(),
            after.dirty_sets@ == self.dirty_sets@.drop_first(),
            ({
                let s = self.dirty_sets@[0] as int;
                &&& forall|x: int|
                    0 <= x < self.component_sets.len() && x != s ==> after.component_sets[x]
                        == self.component_sets[x]
                &&& after.component_sets[s].components == self.component_sets[s].components
                &&& after.component_sets[s].next == NULL_INDEX
                &&& after.first_component_set == self.component_sets[s].next
            }),
        ensures
            after.core_wf(),
            after.wiring() == self.wiring(),
            after.continues(self),
            track ==> after.coherent_from(0, iteration),
    {
        let s = self.dirty_sets@[0] as int;
        let ds = self.dirty_sets@;
        let es = after.dirty_sets@;
        assert(ds.contains(ds[0]));
        assert(after.wiring().set_ids =~= self.wiring().set_ids);
        assert(after.wiring().slot_counts =~= self.wiring().slot_counts);
        assert(after.wiring().input_wires =~= self.wiring().input_wires);
        assert(after.wiring().output_pins =~= self.wiring().output_pins);
        assert(after.wiring().sets =~= self.wiring().sets) by {
            assert forall|x: int| 0 <= x < self.component_sets.len() implies after.component_sets[x].components
                == self.component_sets[x].components by {
                if x != s {
                    assert(after.component_sets[x] == self.component_sets[x]);
                }
            }
        }
        assert(after.wiring() == self.wiring());
        assert(after.set_links_wf()) by {
            assert(es.no_duplicates());
            assert forall|i: int| 0 <= i < es.len() implies (
            #[trigger] after.component_sets[es[i] as int]).next == (if i + 1 < es.len() {
                es[i + 1]
            } else {
                TAIL_INDEX
            }) by {
                assert(es[i] == ds[i + 1]);
                assert(ds[i + 1] != ds[0]);
                assert(self.component_sets[ds[i + 1] as int].next == (if i + 2 < ds.len() {
                    ds[i + 2]
                } else {
                    TAIL_INDEX
                }));
            }
            assert forall|x: int| 0 <= x < after.component_sets.len() implies ((
            #[trigger] after.component_sets[x]).next != NULL_INDEX <==> es.contains(x as usize)) by {
                if x == s {
                    if es.contains(x as usize) {
                        let i = choose|i: int| 0 <= i < es.len() && es[i] == x as usize;
                        assert(ds[i + 1] == ds[0]);
                    }
                } else {
                    if ds.contains(x as usize) {
                        let i = choose|i: int| 0 <= i < ds.len() && ds[i] == x as usize;
                        assert(es[i - 1] == x as usize);
                    }
                    if es.contains(x as usize) {
                        let i = choose|i: int| 0 <= i < es.len() && es[i] == x as usize;
                        assert(ds[i + 1] == x as usize);
                    }
                }
            }
            assert(self.component_sets[ds[0] as int].next == (if 1 < ds.len() {
                ds[1]
            } else {
                TAIL_INDEX
            }));
        }
        assert(after.accepting());
        if track {
            let n = self.component_sets[s].components@.len() as int;
            assert(self.wiring().sets[s] == self.component_sets[s].components@);
            assert forall|k: int| 0 <= k < after.components.len() implies #[trigger] after.settled(
                k,
            ) || after.waiting(k, 0) by {
                assert(after.settled(k) == self.settled(k));
                if !self.settled(k) {
                    assert(self.waiting(k, n));
                    let (p, i) = choose|p: int, i: int|
                        0 <= p < self.dirty_sets@.len() && 0 <= i
                            < self.wiring().sets[self.dirty_sets@[p] as int].len() && (p == 0
                            ==> i >= n) && #[trigger] self.wiring().sets[self.dirty_sets@[p] as int][i]
                            == k;
                    assert(p > 0);
                    assert(es[p - 1] == ds[p]);
                    assert(after.wiring().sets[after.dirty_sets@[p - 1] as int][i] == k);
                }
            }
            assert forall|k: int|
                0 <= k < after.components.len() && (#[trigger] after.components[k]).iteration
                    == iteration implies after.settled(k) by {
                assert(after.settled(k) == self.settled(k));
            }
        }
    }
}

impl Wire {
    /// What the wire shows from outside.
    fn state(&self) -> (state: WireState)
        ensures
            state.voltage == self.voltage,
            state.unstable == (self.next != NULL_INDEX),
    {
        WireState { voltage: self.voltage, unstable: self.next != NULL_INDEX }
    }
}

impl Circuit {
    /// The state `after` is the state `self` with component `k` in another
    /// state that accepts the same ports: the invariant carries over, and
    /// nothing changes for any other component.
    proof fn lemma_component_replaced(&self, after: Circuit, k: int)
        requires
            self.core_wf(),
            0 <= k < self.components.len(),
            after.net == self.net,
            after.components[k].component_impl.accepts(
                self.net.ports[k].inputs@.len(),
                self.net.ports[k].outputs@.len(),
            ),
            after.components.len() == self.components.len(),
            forall|x: int|
                0 <= x < self.components.len() && x != k ==> after.components[x]
                    == self.components[x],
            after.component_sets == self.component_sets,
            after.dirty_sets == self.dirty_sets,
            after.first_component_set == self.first_component_set,
        ensures
            after.core_wf(),
            after.wiring() == self.wiring(),
            forall|x: int|
                0 <= x < self.components.len() && x != k ==> after.settled(x) == self.settled(x),
            (forall|inputs: Seq<Voltage>, m: nat| #[trigger]
                after.components[k].component_impl.driven(inputs, m)
                    == self.components[k].component_impl.driven(inputs, m)) ==> after.settled(k)
                == self.settled(k),
            (forall|n: nat, m: nat| #[trigger]
                after.components[k].component_impl.accepts(n, m)
                    == self.components[k].component_impl.accepts(n, m))
                && self.components[k].component_impl.same_make(
                after.components[k].component_impl,
            ) ==> after.continues(self),
    {
        assert forall|x: int| 0 <= x < self.components.len() && x != k implies #[trigger] self.component(
            x,
        ).same_make(after.component(x)) by {
            ComponentKind::lemma_same_make(self.component(x), self.component(x), self.component(x));
        }
        assert(after.wiring() =~~= self.wiring());
        assert(after.accepting()) by {
            assert forall|x: int| 0 <= x < after.components.len() implies (
            #[trigger] after.components[x]).component_impl.accepts(
                after.net.ports[x].inputs@.len(),
                after.net.ports[x].outputs@.len(),
            ) by {
                assert(self.components[x].component_impl.accepts(
                    self.net.ports[x].inputs@.len(),
                    self.net.ports[x].outputs@.len(),
                ));
            }
        }
    }

    /// With the same wiring and the same stack of dirty sets, the same
    /// components wait for an update.
    proof fn lemma_pending_same(&self, before: &Circuit)
        requires
            self.wiring() == before.wiring(),
            self.dirty_sets@ == before.dirty_sets@,
        ensures
            forall|k: int| self.pending(k) == before.pending(k),
    {
        assert forall|k: int| self.pending(k) == before.pending(k) by {
            self.lemma_pending_kept(before, k);
            before.lemma_pending_kept(self, k);
        }
    }

    /// What a tick at `tick` makes of a component before it is updated, and
    /// the component itself where there is no tick.
    closed spec fn told(kind: ComponentKind, tick: Option<u64>) -> ComponentKind {
        match tick {
            Some(t) => kind.ticked(t),
            None => kind,
        }
    }

    /// Whether a component is updated in a sweep: at a tick if it fires, and
    /// always where there is no tick.
    closed spec fn swept(kind: ComponentKind, tick: Option<u64>) -> bool {
        match tick {
            Some(t) => kind.fires(t),
            None => true,
        }
    }

    /// Whether component `k` is what a sweep makes of the component that it
    /// is in `start`.
    closed spec fn swept_one(&self, start: &Circuit, k: int, tick: Option<u64>) -> bool {
        let inputs = start.net.inputs_of(k);
        let told = Circuit::told(start.components[k].component_impl, tick);
        if Circuit::swept(start.components[k].component_impl, tick) {
            &&& self.components[k].component_impl == told.updated(inputs)
            &&& self.net.outputs_of(k) == overlay(
                start.net.outputs_of(k),
                self.components[k].component_impl.driven(inputs, start.net.outputs_of(k).len()),
            )
        } else {
            &&& self.components[k].component_impl == told
            &&& self.net.outputs_of(k) == start.net.outputs_of(k)
        }
    }

    /// How far a sweep over the components that started from `start` has
    /// come: the components below `upto` are dealt with, the others are as
    /// they were.
    closed spec fn sweep(&self, start: &Circuit, upto: int, tick: Option<u64>) -> bool {
        &&& self.components.len() == start.components.len()
        &&& self.wiring() == start.wiring()
        &&& self.net.wires.len() == start.net.wires.len()
        &&& forall|k: int|
            0 <= k < upto && k < self.components.len() && !(
            (#[trigger] start.components[k]).component_impl is Custom) ==> self.swept_one(
                start,
                k,
                tick,
            )
        &&& forall|k: int|
            upto <= k < self.components.len() ==> #[trigger] self.untouched(start, k)
        &&& start.library_only() ==> self.net.tidy(&start.net)
        &&& self.unpinned_kept(start)
    }

    /// At its start a sweep has come nowhere.
    proof fn lemma_sweep_start(&self, tick: Option<u64>)
        ensures
            self.sweep(self, 0, tick),
    {
        self.net.lemma_untouched();
    }

    /// The state `after` is the state `self` with component `k` told of the
    /// tick (which gives `ticked`) and, if it is to be updated, exposed (which
    /// is `mid`) and updated.
    proof fn lemma_sweep_step(
        &self,
        ticked: Circuit,
        mid: ComponentInterface,
        after: Circuit,
        start: &Circuit,
        k: int,
        tick: Option<u64>,
        fire: bool,
    )
        requires
            self.core_wf(),
            self.sweep(start, k, tick),
            0 <= k < self.components.len(),
            forall|w: int|
                0 <= w < start.net.wires.len() ==> self.net.voltage(w) == start.net.voltage(w),
            ticked.net == self.net,
            ticked.wiring() == self.wiring(),
            ticked.components.len() == self.components.len(),
            forall|x: int|
                0 <= x < self.components.len() && x != k ==> ticked.components[x]
                    == self.components[x],
            !(self.components[k].component_impl is Custom) ==> ticked.components[k].component_impl
                == Circuit::told(self.components[k].component_impl, tick) && fire
                == Circuit::swept(self.components[k].component_impl, tick),
            !fire ==> after == ticked,
            fire ==> {
                &&& mid.wires == ticked.net.wires
                &&& mid.ports == ticked.net.ports
                &&& mid.current == k
                &&& after.wiring() == ticked.wiring()
                &&& after.components.len() == ticked.components.len()
                &&& forall|x: int|
                    0 <= x < self.components.len() && x != k ==> after.components[x]
                        == ticked.components[x]
                &&& after.net.wires.len() == ticked.net.wires.len()
                &&& forall|x: int|
                    0 <= x < self.components.len() && x != k ==> #[trigger] after.net.outputs_of(
                        x,
                    ) == ticked.net.outputs_of(x)
                &&& after.net.outputs_of(k) == after.net.outputs()
                &&& ticked.net.outputs_of(k) == mid.outputs()
                &&& ticked.net.inputs_of(k) == mid.inputs()
                &&& forall|w: int|
                    0 <= w < self.net.wires.len() ==> (#[trigger] after.net.wires[w]).inputs@.len()
                        == ticked.net.wires[w].inputs@.len()
                &&& forall|w: int, s: int|
                    0 <= w < self.net.wires.len() && 0 <= s < self.net.wires[w].inputs@.len()
                        && !mid.owns(w, s) ==> #[trigger] after.net.wires[w].inputs@[s]
                        == ticked.net.wires[w].inputs@[s]
                &&& !(ticked.components[k].component_impl is Custom) ==> {
                    &&& after.components[k].component_impl
                        == ticked.components[k].component_impl.updated(mid.inputs())
                    &&& after.net.outputs() == overlay(
                        mid.outputs(),
                        after.components[k].component_impl.driven(
                            mid.inputs(),
                            mid.outputs().len(),
                        ),
                    )
                    &&& after.net.tidy(&mid)
                }
            },
        ensures
            after.sweep(start, k + 1, tick),
    {
        assert(self.untouched(start, k));
        assert(self.net.inputs_of(k) =~= start.net.inputs_of(k)) by {
            assert(self.wiring().input_wires[k] == start.wiring().input_wires[k]);
            assert forall|i: int| 0 <= i < self.net.ports[k].inputs@.len() implies self.net.voltage(
                self.net.ports[k].inputs@[i] as int,
            ) == start.net.voltage(self.net.ports[k].inputs@[i] as int) by {
                assert(self.net.ports[k].inputs@[i] < self.net.wires.len());
            }
        }
        assert forall|x: int| k + 1 <= x < after.components.len() implies #[trigger] after.untouched(
            start,
            x,
        ) by {
            assert(self.untouched(start, x));
        }
        assert forall|x: int|
            0 <= x < k + 1 && x < after.components.len() && !(
            (#[trigger] start.components[x]).component_impl is Custom) implies after.swept_one(
            start,
            x,
            tick,
        ) by {
            if x < k {
                assert(self.swept_one(start, x, tick));
            }
        }
        assert forall|w: int| 0 <= w < self.net.wires.len() implies self.net.wires[w].inputs@.len()
            == start.net.wires[w].inputs@.len() by {
            assert(self.wiring().slot_counts[w] == start.wiring().slot_counts[w]);
        }
        if fire {
            assert forall|w: int, s: int|
                0 <= w < mid.wires.len() && 0 <= s < mid.wires[w].inputs@.len() && mid.owns(
                    w,
                    s,
                ) implies #[trigger] mid.wires[w].inputs@[s] == start.net.wires[w].inputs@[s] by {
                let j = choose|j: int|
                    0 <= j < mid.output_pins(mid.current()).len() && #[trigger] mid.output_pins(
                        mid.current(),
                    )[j] == (Pin { wire_id: w as usize, input_id: s as usize });
                let pin = Pin { wire_id: w as usize, input_id: s as usize };
                assert(self.wiring().output_pins[k] == start.wiring().output_pins[k]);
                assert(self.net.ports[k].outputs@ == start.net.ports[k].outputs@);
                assert(self.net.output_pins(k)[j] == pin);
                assert(start.net.output_pins(k)[j] == pin);
                assert(pin.connected());
                assert(self.net.outputs_of(k)[j] == self.net.slot_at(pin));
                assert(start.net.outputs_of(k)[j] == start.net.slot_at(pin));
                assert(self.net.slot_at(pin) == Some(self.net.slots(w)[s]));
                assert(start.net.slot_at(pin) == Some(start.net.slots(w)[s]));
            }
            if start.library_only() {
                assert(!(start.component(k) is Custom));
                assert(mid.tidy(&start.net));
                mid.lemma_tidy_chain(&start.net, &after.net);
            }
            assert(after.unpinned_kept(start)) by {
                assert forall|w: int, s: int|
                    0 <= w < after.net.wires.len() && 0 <= s < after.net.wires[w].inputs@.len()
                        && !start.net.pinned(w, s) implies #[trigger] after.net.wires[w].inputs@[s]
                    == start.net.wires[w].inputs@[s] by {
                    if mid.owns(w, s) {
                        let j = choose|j: int|
                            0 <= j < mid.output_pins(mid.current()).len()
                                && #[trigger] mid.output_pins(mid.current())[j] == (Pin {
                                wire_id: w as usize,
                                input_id: s as usize,
                            });
                        assert(self.wiring().output_pins[k] == start.wiring().output_pins[k]);
                        assert(start.net.output_pins(k)[j] == (Pin {
                            wire_id: w as usize,
                            input_id: s as usize,
                        }));
                        assert(start.net.pinned(w, s));
                    }
                    assert(self.net.wires[w].inputs@[s] == start.net.wires[w].inputs@[s]);
                }
            }
        }
    }

    /// Updates every component once, in the order in which they were added.
    fn init(&mut self)
        requires
            old(self).core_wf(),
        ensures
            final(self).core_wf(),
            final(self).tags_below(0),
            final(self).wiring() == old(self).wiring(),
            final(self).iteration_count == old(self).iteration_count,
            final(self).tick_count == old(self).tick_count,
            final(self).dirty_sets == old(self).dirty_sets,
            final(self).net.wires.len() == old(self).net.wires.len(),
            final(self).continues(old(self)),
            forall|w: int|
                0 <= w < old(self).net.wires.len() ==> final(self).net.voltage(w) == old(self).net.voltage(w),
            forall|k: int| 0 <= k < final(self).components.len() ==> final(self).settled(k),
            final(self).sweep(old(self), old(self).components.len() as int, None),
    {
        let n: usize = self.components.len();
        let mut k: usize = 0;
        proof {
            self.lemma_sweep_start(None);
        }
        while k < n
            invariant
                0 <= k <= n == self.components.len(),
                self.core_wf(),
                self.continues(old(self)),
                self.wiring() == old(self).wiring(),
                self.iteration_count == old(self).iteration_count,
                self.tick_count == old(self).tick_count,
                self.dirty_sets == old(self).dirty_sets,
                self.net.wires.len() == old(self).net.wires.len(),
                forall|w: int|
                    0 <= w < old(self).net.wires.len() ==> self.net.voltage(w) == old(self).net.voltage(w),
                forall|x: int| 0 <= x < k ==> (#[trigger] self.components[x]).iteration == NULL_INDEX,
                forall|x: int| 0 <= x < k ==> self.settled(x),
                self.sweep(old(self), k as int, None),
            decreases n - k,
        {
            let ghost before = *self;
            proof {
                assert(before.components[k as int].component_impl.accepts(
                    before.net.ports[k as int].inputs@.len(),
                    before.net.ports[k as int].outputs@.len(),
                ));
            }
            let component = &mut self.components[k];
            component.iteration = NULL_INDEX;
            self.net.current = k;
            let ghost mid = self.net;
            proof {
                assert(mid.inputs().len() == mid.input_wires(k as int).len());
            }
            component.component_impl.update(&mut self.net);
            proof {
                before.lemma_component_updated(mid, *self, k as int);
                self.lemma_continues(&before, old(self));
                before.lemma_sweep_step(before, mid, *self, old(self), k as int, None, true);
            }
            k += 1;
        }
    }

    /// The wire phase `wired` and the component phase `after` that follow
    /// `self` make up one iteration.
    proof fn lemma_iterated(&self, wired: Circuit, after: Circuit)
        requires
            self.core_wf(),
            self.dirty_sets@.len() == 0,
            wired.core_wf(),
            wired.wiring() == self.wiring(),
            wired.components == self.components,
            wired.net.ports == self.net.ports,
            wired.net.wires.len() == self.net.wires.len(),
            wired.net.dirty@.len() == 0,
            forall|w: int|
                0 <= w < self.net.wires.len() ==> (#[trigger] wired.net.wires[w]).inputs
                    == self.net.wires[w].inputs,
            forall|w: int|
                0 <= w < self.net.wires.len() ==> #[trigger] wired.net().voltage(w)
                    == self.resolved_voltage(w),
            forall|s: usize| #[trigger]
                wired.dirty_sets@.contains(s) <==> self.dirty_sets@.contains(s) || (s != NULL_INDEX
                    && self.wakes(s, self.net.dirty@.len() as int)),
            after.wf(),
            after.wiring() == wired.wiring(),
            after.tick_count == self.tick_count,
            after.iteration_count == self.iteration_count + 1,
            after.net.wires.len() == wired.net.wires.len(),
            after.components.len() == wired.components.len(),
            after.continues(self),
            forall|w: int|
                0 <= w < wired.net.wires.len() ==> after.net.voltage(w) == wired.net.voltage(w),
            forall|k: int|
                0 <= k < wired.components.len() && !(
                wired.components[k].component_impl is Custom) && #[trigger] wired.pending(k)
                    ==> after.exact_update(&wired, k),
            forall|k: int|
                0 <= k < wired.components.len() && !(#[trigger] wired.pending(k))
                    ==> after.untouched(&wired, k),
            wired.library_only() ==> after.net.tidy(&wired.net),
            after.unpinned_kept(&wired),
        ensures
            after.iterated(self),
    {
        let t = self.wiring();
        assert(t.wf());
        assert forall|k: int| 0 <= k < self.components.len() implies wired.net.inputs_of(k)
            == self.resolved_inputs(k) && wired.net.outputs_of(k) == self.net.outputs_of(k)
            && (wired.pending(k) <==> self.triggered(k)) by {
            assert(wired.net.inputs_of(k) =~= self.resolved_inputs(k)) by {
                assert forall|i: int| 0 <= i < self.net.ports[k].inputs@.len() implies wired.net.voltage(
                    self.net.ports[k].inputs@[i] as int,
                ) == self.resolved_voltage(self.net.ports[k].inputs@[i] as int) by {
                    let w = self.net.ports[k].inputs@[i] as int;
                    assert(self.net.ports[k].inputs@[i] < self.net.wires.len());
                    assert(wired.net().voltage(w) == self.resolved_voltage(w));
                }
            }
            assert(wired.net.outputs_of(k) =~= self.net.outputs_of(k)) by {
                assert forall|j: int| 0 <= j < self.net.ports[k].outputs@.len() implies wired.net.slot_at(
                    self.net.ports[k].outputs@[j],
                ) == self.net.slot_at(self.net.ports[k].outputs@[j]) by {
                    let pin = self.net.ports[k].outputs@[j];
                    if pin.connected() {
                        assert(wired.net.wires[pin.wire_id as int].inputs
                            == self.net.wires[pin.wire_id as int].inputs);
                    }
                }
            }
            if wired.pending(k) {
                let (p, i) = choose|p: int, i: int|
                    0 <= p < wired.dirty_sets().len() && 0 <= i
                        < wired.wiring().sets[wired.dirty_sets()[p] as int].len()
                        && #[trigger] wired.wiring().sets[wired.dirty_sets()[p] as int][i] == k;
                let s = wired.dirty_sets@[p];
                assert(wired.dirty_sets@.contains(s));
                assert(self.wakes(s, self.net.dirty@.len() as int));
                let j = choose|j: int|
                    0 <= j < self.net.dirty@.len() && self.stale(self.net.dirty@[j] as int) && (
                    #[trigger] self.net.wires[self.net.dirty@[j] as int]).invalidation_id == s;
                let w = self.net.dirty@[j] as int;
                assert(self.net.dirty@.contains(self.net.dirty@[j]));
                assert(t.set_ids[w] == s);
                assert(t.reads(t.sets[t.set_ids[w] as int][i] as int, w));
                let x = choose|x: int|
                    0 <= x < t.input_wires[k].len() && t.input_wires[k][x] == w as usize;
                assert(self.net().input_wires(k)[x] == w as usize);
                assert(self.changes(self.net().input_wires(k)[x] as int));
                assert(self.triggered(k));
            }
            if self.triggered(k) {
                let x = choose|x: int|
                    0 <= x < self.net().input_wires(k).len() && self.changes(
                        (#[trigger] self.net().input_wires(k)[x]) as int,
                    );
                let w = self.net().input_wires(k)[x] as int;
                assert(t.input_wires[k][x] == w as usize);
                let s = t.set_ids[w];
                assert(s != NULL_INDEX && t.sets[s as int].contains(k as usize));
                assert(self.unstable(w));
                let j = choose|j: int|
                    0 <= j < self.net.dirty@.len() && self.net.dirty@[j] == w as usize;
                assert(self.stale(self.net.dirty@[j] as int));
                assert(self.net.wires[self.net.dirty@[j] as int].invalidation_id == s);
                assert(self.wakes(s, self.net.dirty@.len() as int));
                assert(wired.dirty_sets@.contains(s));
                let p = choose|p: int| 0 <= p < wired.dirty_sets@.len() && wired.dirty_sets@[p] == s;
                let i = choose|i: int| 0 <= i < t.sets[s as int].len() && t.sets[s as int][i] == k as usize;
                assert(wired.wiring().sets[wired.dirty_sets()[p] as int][i] == k);
                assert(wired.pending(k));
            }
        }
        assert forall|k: int| 0 <= k < self.num_components() implies #[trigger] after.component_iterated(
            self,
            k,
        ) by {
            assert(wired.net.inputs_of(k) == self.resolved_inputs(k));
            assert(wired.pending(k) <==> self.triggered(k));
            assert(wired.components[k] == self.components[k]);
            assert(self.net().output_pins(k).len() == self.net.outputs_of(k).len());
            if self.triggered(k) {
                if !(self.component(k) is Custom) {
                    assert(after.exact_update(&wired, k));
                }
            } else {
                assert(after.untouched(&wired, k));
            }
        }
        assert forall|w: int| 0 <= w < self.net.wires.len() implies after.net.wires[w].inputs@.len()
            == self.net.wires[w].inputs@.len() by {
            assert(after.wiring().slot_counts[w] == self.wiring().slot_counts[w]);
        }
        assert(after.slots_kept(self)) by {
            assert forall|w: int, s: int|
                0 <= w < self.num_wires() && 0 <= s < self.net().slots(w).len()
                    && !self.net().pinned(w, s) implies #[trigger] after.net().slots(w)[s]
                == self.net().slots(w)[s] by {
                if wired.net.pinned(w, s) {
                    let (k, j) = choose|k: int, j: int|
                        0 <= k < wired.net.num_components() && 0 <= j < wired.net.output_pins(
                            k,
                        ).len() && #[trigger] wired.net.output_pins(k)[j] == (Pin {
                            wire_id: w as usize,
                            input_id: s as usize,
                        });
                    assert(self.net.output_pins(k)[j] == (Pin {
                        wire_id: w as usize,
                        input_id: s as usize,
                    }));
                }
                assert(after.net.wires[w].inputs@[s] == wired.net.wires[w].inputs@[s]);
            }
        }
        if self.library_only() {
            assert forall|k: int| 0 <= k < wired.num_components() implies !(
            #[trigger] wired.component(k) is Custom) by {
                assert(!(self.component(k) is Custom));
            }
            assert forall|w: int| 0 <= w < self.num_wires() implies (#[trigger] after.unstable(w)
                <==> after.net().slots(w) != self.net().slots(w)) by {
                assert(wired.net.wires[w].next == NULL_INDEX);
                assert(after.net.wires[w].next != NULL_INDEX <==> wired.net.wires[w].next
                    != NULL_INDEX || after.net.wires[w].inputs@ != wired.net.wires[w].inputs@);
            }
        }
        assert forall|w: int| 0 <= w < self.num_wires() implies #[trigger] after.net().voltage(w)
            == self.resolved_voltage(w) by {
            assert(wired.net().voltage(w) == self.resolved_voltage(w));
        }
    }

    /// Runs up to `max_iterations` iterations: in each, every dirty wire is
    /// resolved, and then every member of every dirty set is updated. Returns
    /// `true` as soon as an iteration ends with both stacks empty, and
    /// `false` when the budget runs out first.
    ///
    /// What the iterations make of the circuit is `propagated`: the stacks
    /// decide in which order wires are resolved and components updated, but
    /// not what comes of it.
    pub fn propagate(&mut self, max_iterations: usize) -> (stable: bool)
        requires
            old(self).wf(),
            old(self).iterations() + max_iterations <= usize::MAX,
        ensures
            final(self).wf(),
            final(self).wiring() == old(self).wiring(),
            final(self).ticks() == old(self).ticks(),
            final(self).num_wires() == old(self).num_wires(),
            final(self).num_components() == old(self).num_components(),
            final(self).continues(old(self)),
            old(self).iterations() <= final(self).iterations() <= old(self).iterations()
                + max_iterations,
            stable ==> final(self).is_stable(),
            stable ==> final(self).iterations() > old(self).iterations(),
            !stable && max_iterations > 0 ==> !final(self).is_stable(),
            !stable ==> final(self).iterations() == old(self).iterations() + max_iterations,
            max_iterations == 0 ==> *final(self) == *old(self),
            old(self).is_stable() && max_iterations > 0 ==> {
                &&& stable
                &&& final(self).iterations() == old(self).iterations() + 1
                &&& final(self).net() == old(self).net()
                &&& forall|k: int|
                    0 <= k < old(self).num_components() ==> final(self).component(k) == old(
                        self,
                    ).component(k)
            },
            stable ==> forall|w: int|
                0 <= w < final(self).num_wires() ==> final(self).net().voltage(w) == resolution(
                    final(self).net().slots(w),
                ),
            old(self).coherent() ==> final(self).coherent(),
            stable && old(self).coherent() ==> forall|k: int|
                0 <= k < final(self).num_components() ==> final(self).settled(k),
            final(self).propagated(old(self), max_iterations as nat, stable),
    {
        let mut i: usize = 0;
        let ghost mut trace: Seq<Circuit> = seq![*self];
        while i < max_iterations
            invariant
                0 <= i <= max_iterations,
                self.wf(),
                trace.len() == i + 1,
                trace[0] == *old(self),
                trace[i as int] == *self,
                forall|j: int| 1 <= j < trace.len() ==> (#[trigger] trace[j]).iterated(&trace[j - 1]),
                forall|j: int| 1 <= j < trace.len() ==> !(#[trigger] trace[j]).is_stable(),
                self.continues(old(self)),
                self.wiring() == old(self).wiring(),
                self.tick_count == old(self).tick_count,
                self.net.wires.len() == old(self).net.wires.len(),
                self.net.ports.len() == old(self).net.ports.len(),
                self.iteration_count == old(self).iteration_count + i,
                old(self).iteration_count + max_iterations <= usize::MAX,
                i == 0 ==> *self == *old(self),
                i > 0 ==> !self.is_stable() && !old(self).is_stable(),
                old(self).coherent() ==> self.coherent(),
            decreases max_iterations - i,
        {
            let ghost before = *self;
            self.update_wires();
            let ghost wired = *self;
            self.update_components(self.iteration_count);
            let ghost updated = *self;
            self.iteration_count += 1;
            i += 1;
            proof {
                assert(self.wiring() =~~= updated.wiring());
                assert(self.tags_below(self.iteration_count as int));
                assert(self.net.ports.len() == before.net.ports.len()) by {
                    assert(self.wiring().input_wires.len() == before.wiring().input_wires.len());
                }
                assert(self.accepting());
                assert(self.continues(old(self))) by {
                    assert(wired.net.ports.len() == before.net.ports.len());
                    wired.lemma_continues_same(&before);
                    updated.lemma_continues(&wired, &before);
                    self.lemma_continues_same(&updated);
                    self.lemma_continues(&updated, &before);
                    self.lemma_continues(&before, old(self));
                }
                self.lemma_pending_same(&updated);
                assert forall|k: int| 0 <= k < self.num_components() implies self.settled(k)
                    == updated.settled(k) by {}
                if old(self).coherent() {
                    assert forall|k: int| 0 <= k < self.num_components() implies #[trigger] self.settled(
                        k,
                    ) || self.pending(k) by {
                        assert(updated.settled(k) || updated.pending(k));
                    }
                }
                if before.is_stable() {
                    assert(updated == before);
                }
                assert(self.unpinned_kept(&wired)) by {
                    assert(updated.unpinned_kept(&wired));
                }
                assert forall|k: int|
                    0 <= k < wired.components.len() && !(
                    wired.components[k].component_impl is Custom) && #[trigger] wired.pending(
                        k,
                    ) implies self.exact_update(&wired, k) by {
                    assert(updated.exact_update(&wired, k));
                }
                assert forall|k: int|
                    0 <= k < wired.components.len() && !(#[trigger] wired.pending(
                        k,
                    )) implies self.untouched(&wired, k) by {
                    assert(updated.untouched(&wired, k));
                }
                assert(self.continues(&before)) by {
                    wired.lemma_continues_same(&before);
                    updated.lemma_continues(&wired, &before);
                    self.lemma_continues_same(&updated);
                    self.lemma_continues(&updated, &before);
                }
                before.lemma_iterated(wired, *self);
                let longer = trace.push(*self);
                assert forall|j: int| 1 <= j < longer.len() implies (#[trigger] longer[j]).iterated(
                    &longer[j - 1],
                ) by {
                    if j < trace.len() {
                        assert(trace[j].iterated(&trace[j - 1]));
                    }
                }
                trace = longer;
            }
            if self.net.first_wire == TAIL_INDEX && self.first_component_set == TAIL_INDEX {
                proof {
                    self.lemma_stable();
                    assert(self.ends(old(self), trace, max_iterations as nat, true));
                }
                return true;
            }
        }
        proof {
            assert(self.ends(old(self), trace, max_iterations as nat, false));
        }
        false
    }

    /// In a circuit at rest every wire carries the resolution of its slots,
    /// no wire is unstable, and a coherent circuit has every component
    /// driving what it should for the voltages on its inputs.
    pub proof fn lemma_stable(&self)
        requires
            self.wf(),
            self.is_stable(),
        ensures
            forall|w: int|
                0 <= w < self.num_wires() ==> self.net().voltage(w) == resolution(
                    self.net().slots(w),
                ),
            forall|w: usize| !#[trigger] self.net().dirty_wires().contains(w),
            self.coherent() ==> forall|k: int| 0 <= k < self.num_components() ==> self.settled(k),
    {
        assert forall|w: int| 0 <= w < self.num_wires() implies self.net().voltage(w)
            == resolution(self.net().slots(w)) by {
            assert(self.net.wires[w].next == NULL_INDEX);
        }
        if self.coherent() {
            assert forall|k: int| 0 <= k < self.num_components() implies self.settled(k) by {
                assert(self.settled(k) || self.pending(k));
            }
        }
    }

    /// Advances the circuit by one tick: forgets the iteration tags, tells
    /// every component the number of the new tick, in the order in which the
    /// components were added, and updates those that ask for it. What the
    /// tick makes of the circuit is `ticked`.
    pub fn tick(&mut self)
        requires
            old(self).wf(),
            old(self).ticks() < u64::MAX,
        ensures
            final(self).wf(),
            final(self).wiring() == old(self).wiring(),
            final(self).ticks() == old(self).ticks() + 1,
            final(self).iterations() == 0,
            final(self).num_wires() == old(self).num_wires(),
            final(self).num_components() == old(self).num_components(),
            final(self).dirty_sets() == old(self).dirty_sets(),
            final(self).continues(old(self)),
            forall|w: int|
                0 <= w < old(self).num_wires() ==> final(self).net().voltage(w) == old(self).net().voltage(w),
            old(self).coherent() ==> final(self).coherent(),
            final(self).ticked(old(self)),
    {
        self.iteration_count = 0;
        self.tick_count += 1;
        let tick: u64 = self.tick_count;
        let n: usize = self.components.len();
        let mut k: usize = 0;
        let ghost start = *self;
        proof {
            start.lemma_sweep_start(Some(tick));
            assert(self.wiring() =~~= old(self).wiring());
            old(self).lemma_pending_same(&*self);
            assert forall|x: int| 0 <= x < self.components.len() implies self.settled(x) == old(
                self,
            ).settled(x) by {}
            assert(self.accepting());
        }
        while k < n
            invariant
                0 <= k <= n == self.components.len(),
                self.core_wf(),
                self.continues(old(self)),
                self.wiring() == old(self).wiring(),
                self.iteration_count == 0,
                self.tick_count == tick == old(self).tick_count + 1,
                self.dirty_sets == old(self).dirty_sets,
                self.net.wires.len() == old(self).net.wires.len(),
                self.net.ports.len() == old(self).net.ports.len(),
                forall|w: int|
                    0 <= w < old(self).net.wires.len() ==> self.net.voltage(w) == old(self).net.voltage(w),
                forall|x: int| 0 <= x < k ==> (#[trigger] self.components[x]).iteration == NULL_INDEX,
                old(self).coherent() ==> self.coherent(),
                start.net == old(self).net,
                start.components == old(self).components,
                start.wiring() == old(self).wiring(),
                self.sweep(&start, k as int, Some(tick)),
            decreases n - k,
        {
            let ghost before = *self;
            let component = &mut self.components[k];
            component.iteration = NULL_INDEX;
            let fire: bool = component.component_impl.tick(tick);
            let ghost ticked = *self;
            proof {
                assert(before.components[k as int].component_impl.accepts(
                    before.net.ports[k as int].inputs@.len(),
                    before.net.ports[k as int].outputs@.len(),
                ));
                before.lemma_component_replaced(ticked, k as int);
                ticked.lemma_pending_same(&before);
                ticked.lemma_continues(&before, old(self));
            }
            if fire {
                proof {
                    assert(ticked.components[k as int].component_impl.accepts(
                        ticked.net.ports[k as int].inputs@.len(),
                        ticked.net.ports[k as int].outputs@.len(),
                    ));
                }
                self.net.current = k;
                let ghost mid = self.net;
                proof {
                    assert(mid.inputs().len() == mid.input_wires(k as int).len());
                }
                let component = &mut self.components[k];
                component.component_impl.update(&mut self.net);
                proof {
                    ticked.lemma_component_updated(mid, *self, k as int);
                    self.lemma_pending_same(&ticked);
                    self.lemma_continues(&ticked, old(self));
                    before.lemma_sweep_step(
                        ticked,
                        mid,
                        *self,
                        &start,
                        k as int,
                        Some(tick),
                        true,
                    );
                }
            } else {
                proof {
                    before.lemma_sweep_step(
                        ticked,
                        ticked.net,
                        *self,
                        &start,
                        k as int,
                        Some(tick),
                        false,
                    );
                }
            }
            proof {
                if old(self).coherent() {
                    assert forall|x: int| 0 <= x < self.num_components() implies #[trigger] self.settled(
                        x,
                    ) || self.pending(x) by {
                        assert(before.settled(x) || before.pending(x));
                    }
                }
            }
            k += 1;
        }
        proof {
            self.lemma_ticked(&start, old(self), tick);
        }
    }

    /// A sweep with a tick over all components of `start`, which is
    /// `before` with its counters set for the tick, is a tick of `before`.
    proof fn lemma_ticked(&self, start: &Circuit, before: &Circuit, tick: u64)
        requires
            before.wf(),
            self.core_wf(),
            self.tags_below(0),
            self.iteration_count == 0,
            self.tick_count == tick == before.tick_count + 1,
            self.dirty_sets == before.dirty_sets,
            self.continues(before),
            self.net.wires.len() == before.net.wires.len(),
            forall|w: int|
                0 <= w < before.net.wires.len() ==> self.net.voltage(w) == before.net.voltage(w),
            start.net == before.net,
            start.components == before.components,
            start.wiring() == before.wiring(),
            self.sweep(start, start.components.len() as int, Some(tick)),
        ensures
            self.ticked(before),
    {
        assert forall|k: int| 0 <= k < before.num_components() implies #[trigger] self.component_ticked(
            before,
            k,
        ) by {
            if !(before.component(k) is Custom) {
                assert(!(start.components[k].component_impl is Custom));
                assert(self.swept_one(start, k, Some(tick)));
                assert(before.net().output_pins(k).len() == before.net.outputs_of(k).len());
            }
        }
        assert forall|w: int| 0 <= w < self.net.wires.len() implies self.net.wires[w].inputs@.len()
            == before.net.wires[w].inputs@.len() by {
            assert(self.wiring().slot_counts[w] == before.wiring().slot_counts[w]);
        }
        assert(self.slots_kept(before)) by {
            assert forall|w: int, s: int|
                0 <= w < before.num_wires() && 0 <= s < before.net().slots(w).len()
                    && !before.net().pinned(w, s) implies #[trigger] self.net().slots(w)[s]
                == before.net().slots(w)[s] by {
                assert(self.net.wires[w].inputs@[s] == start.net.wires[w].inputs@[s]);
            }
        }
        if before.library_only() {
            assert forall|k: int| 0 <= k < start.num_components() implies !(
            #[trigger] start.component(k) is Custom) by {
                assert(!(before.component(k) is Custom));
            }
            assert forall|w: int| 0 <= w < before.num_wires() implies (#[trigger] self.unstable(w)
                <==> before.unstable(w) || self.net().slots(w) != before.net().slots(w)) by {
                assert(self.net.wires[w].next != NULL_INDEX <==> start.net.wires[w].next
                    != NULL_INDEX || self.net.wires[w].inputs@ != start.net.wires[w].inputs@);
            }
        }
    }

    /// The voltage of a wire, and whether the wire is on the stack of dirty
    /// wires.
    pub fn wire(&self, wref: WireRef) -> (state: WireState)
        requires
            self.wf(),
            0 <= wref.index() < self.num_wires(),
        ensures
            state.voltage == self.net().voltage(wref.index()),
            state.unstable == self.net().dirty_wires().contains(wref.index() as usize),
    {
        self.net.wires[wref.0].state()
    }

    /// The id of the set of components that read a wire, `None` for a wire
    /// that no component reads.
    pub fn reader_set(&self, wref: WireRef) -> (id: Option<usize>)
        requires
            self.wf(),
            0 <= wref.index() < self.num_wires(),
        ensures
            match id {
                Some(id) => id == self.net().set_id(wref.index()) && id != NULL_INDEX,
                None => self.net().set_id(wref.index()) == NULL_INDEX,
            },
    {
        let id: usize = self.net.wires[wref.0].invalidation_id;
        if id == NULL_INDEX {
            None
        } else {
            Some(id)
        }
    }

    /// The number of ticks so far.
    pub fn tick_count(&self) -> (ticks: u64)
        ensures
            ticks == self.ticks(),
    {
        self.tick_count
    }

    /// The number of the iteration that comes next.
    pub fn iteration_count(&self) -> (iterations: usize)
        ensures
            iterations == self.iterations(),
    {
        self.iteration_count
    }
}

impl Circuit {
    /// The wiring is that of the wires and ports, and its sets are interned.
    pub proof fn lemma_wiring(&self)
        requires
            self.wf(),
        ensures
            self.wiring().wf(),
            self.wiring().set_ids.len() == self.num_wires(),
            self.wiring().input_wires.len() == self.num_components(),
            forall|w: int|
                0 <= w < self.num_wires() ==> #[trigger] self.wiring().set_ids[w] == self.net().set_id(w),
            forall|w: int|
                0 <= w < self.num_wires() ==> #[trigger] self.wiring().slot_counts[w]
                    == self.net().slots(w).len(),
            forall|k: int|
                0 <= k < self.num_components() ==> #[trigger] self.wiring().input_wires[k]
                    == self.net().input_wires(k),
            forall|k: int|
                0 <= k < self.num_components() ==> #[trigger] self.wiring().output_pins[k]
                    == self.net().output_pins(k),
    {
    }

    /// Two wires that are read by the same components share one set.
    pub proof fn lemma_shared_set(&self, v: int, w: int)
        requires
            self.wf(),
            0 <= v < self.num_wires(),
            0 <= w < self.num_wires(),
            forall|k: int|
                0 <= k < self.num_components() ==> self.wiring().reads(k, v) == self.wiring().reads(k, w),
        ensures
            self.net().set_id(v) == self.net().set_id(w),
    {
        let t = self.wiring();
        let a = t.set_ids[v];
        let b = t.set_ids[w];
        if a != NULL_INDEX && b == NULL_INDEX {
            let k = t.sets[a as int][0] as int;
            assert(t.reads(k, v));
            let i = choose|i: int| 0 <= i < t.input_wires[k].len() && t.input_wires[k][i] == w as usize;
            assert(t.set_ids[t.input_wires[k][i] as int] != NULL_INDEX);
        } else if a == NULL_INDEX && b != NULL_INDEX {
            let k = t.sets[b as int][0] as int;
            assert(t.reads(k, w));
            let i = choose|i: int| 0 <= i < t.input_wires[k].len() && t.input_wires[k][i] == v as usize;
            assert(t.set_ids[t.input_wires[k][i] as int] != NULL_INDEX);
        } else if a != NULL_INDEX && a != b {
            let x = t.sets[a as int];
            let y = t.sets[b as int];
            assert forall|k: usize| x.contains(k) == y.contains(k) by {
                if x.contains(k) {
                    let i = choose|i: int| 0 <= i < x.len() && x[i] == k;
                    assert(t.reads(t.sets[a as int][i] as int, v));
                    assert(t.sets[a as int][i] < t.input_wires.len());
                    assert(t.reads(k as int, w));
                    let m = choose|m: int|
                        0 <= m < t.input_wires[k as int].len() && t.input_wires[k as int][m]
                            == w as usize;
                    assert(t.sets[t.set_ids[t.input_wires[k as int][m] as int] as int].contains(k));
                }
                if y.contains(k) {
                    let i = choose|i: int| 0 <= i < y.len() && y[i] == k;
                    assert(t.reads(t.sets[b as int][i] as int, w));
                    assert(t.sets[b as int][i] < t.input_wires.len());
                    assert(t.reads(k as int, v));
                    let m = choose|m: int|
                        0 <= m < t.input_wires[k as int].len() && t.input_wires[k as int][m]
                            == v as usize;
                    assert(t.sets[t.set_ids[t.input_wires[k as int][m] as int] as int].contains(k));
                }
            }
            lemma_increasing_equal(x, y);
            if a < b {
                assert(t.sets[a as int] != t.sets[b as int]);
            } else {
                assert(t.sets[b as int] != t.sets[a as int]);
            }
        }
    }
}

/// Two strictly increasing lists with the same elements are the same list.
pub proof fn lemma_increasing_equal(x: Seq<usize>, y: Seq<usize>)
    requires
        forall|i: int, j: int| 0 <= i < j < x.len() ==> x[i] < x[j],
        forall|i: int, j: int| 0 <= i < j < y.len() ==> y[i] < y[j],
        forall|k: usize| x.contains(k) == y.contains(k),
    ensures
        x == y,
    decreases x.len(),
{
    if x.len() == 0 {
        if y.len() > 0 {
            assert(y.contains(y[0]));
        }
        assert(x =~= y);
    } else if y.len() == 0 {
        assert(x.contains(x[0]));
    } else {
        // the last element of each list is its greatest, so the two agree
        let a = x.last();
        let b = y.last();
        assert(x.contains(a));
        assert(y.contains(b));
        let i = choose|i: int| 0 <= i < y.len() && y[i] == a;
        let j = choose|j: int| 0 <= j < x.len() && x[j] == b;
        assert(a == b);
        let p = x.drop_last();
        let q = y.drop_last();
        assert forall|k: usize| p.contains(k) == q.contains(k) by {
            if p.contains(k) {
                let m = choose|m: int| 0 <= m < p.len() && p[m] == k;
                assert(x[m] == k);
                assert(x.contains(k));
                let r = choose|r: int| 0 <= r < y.len() && y[r] == k;
                assert(k < a);
                assert(q[r] == k);
            }
            if q.contains(k) {
                let m = choose|m: int| 0 <= m < q.len() && q[m] == k;
                assert(y[m] == k);
                assert(y.contains(k));
                let r = choose|r: int| 0 <= r < x.len() && x[r] == k;
                assert(k < b);
                assert(p[r] == k);
            }
        }
        assert forall|i: int, j: int| 0 <= i < j < p.len() implies p[i] < p[j] by {
            assert(x[i] < x[j]);
        }
        assert forall|i: int, j: int| 0 <= i < j < q.len() implies q[i] < q[j] by {
            assert(y[i] < y[j]);
        }
        lemma_increasing_equal(p, q);
        assert(x =~= p.push(a));
        assert(y =~= q.push(b));
    }
}

impl Circuit {
    /// The component behind `cref`, which is of type `C`.
    pub fn component_ref<C: AnyComponent>(&self, cref: ComponentRef) -> (component: &C)
        requires
            self.wf(),
            0 <= cref.index() < self.num_components(),
            C::is_kind(self.component(cref.index())),
        ensures
            component.kind_of() == self.component(cref.index()),
    {
        match C::kind_ref(&self.components[cref.0].component_impl) {
            Some(component) => component,
            None => vstd::pervasive::unreached(),
        }
    }

    /// The component behind `cref`, which is of type `C`, to be changed in
    /// place. Nothing else changes, and the circuit stays well formed if the
    /// component still accepts the ports that it is wired to.
    pub fn component_mut<C: AnyComponent>(&mut self, cref: ComponentRef) -> (component: &mut C)
        requires
            old(self).wf(),
            0 <= cref.index() < old(self).num_components(),
            C::is_kind(old(self).component(cref.index())),
        ensures
            (*component).kind_of() == old(self).component(cref.index()),
            final(self).component(cref.index()) == (*final(component)).kind_of(),
            final(self).replaced(old(self), cref.index()),
            (*final(component)).kind_of().accepts(
                old(self).net().input_wires(cref.index()).len(),
                old(self).net().output_pins(cref.index()).len(),
            ) ==> final(self).wf(),
    {
        let ghost k = cref.0 as int;
        proof {
            let before = *self;
            assert forall|after: Circuit|
                after.iteration_count == before.iteration_count && after.tick_count
                    == before.tick_count && after.first_component_set
                    == before.first_component_set && after.net == before.net
                    && after.component_sets == before.component_sets && after.dirty_sets
                    == before.dirty_sets && after.components@ == before.components@.update(
                    k,
                    ComponentWrapper {
                        iteration: before.components[k].iteration,
                        component_impl: after.components[k].component_impl,
                    },
                ) implies #[trigger] after.replaced(&before, k) && (
            after.components[k].component_impl.accepts(
                before.net.ports[k].inputs@.len(),
                before.net.ports[k].outputs@.len(),
            ) ==> after.wf()) by {
                assert(after.components.len() == before.components.len());
                assert(after.wiring() =~~= before.wiring());
                assert forall|x: int| 0 <= x < before.components.len() && x != k implies after.components[x]
                    == before.components[x] by {
                    assert(after.components@[x] == before.components@[x]);
                }
                if after.components[k].component_impl.accepts(
                    before.net.ports[k].inputs@.len(),
                    before.net.ports[k].outputs@.len(),
                ) {
                    before.lemma_component_replaced(after, k);
                    assert(after.tags_below(after.iteration_count as int)) by {
                        assert forall|x: int| 0 <= x < after.components.len() implies (
                        #[trigger] after.components[x]).iteration == NULL_INDEX
                            || after.components[x].iteration < after.iteration_count by {
                            assert(before.components[x].iteration == NULL_INDEX
                                || before.components[x].iteration < before.iteration_count);
                            assert(after.components@[x].iteration == before.components@[x].iteration);
                        }
                    }
                }
            }
        }
        match C::kind_mut(&mut self.components[cref.0].component_impl) {
            Some(component) => component,
            None => vstd::pervasive::unreached(),
        }
    }

    /// Whether the circuit is `before` but for the state of component `k`.
    pub open spec fn replaced(&self, before: &Circuit, k: int) -> bool {
        &&& self.net() == before.net()
        &&& self.wiring() == before.wiring()
        &&& self.dirty_sets() == before.dirty_sets()
        &&& self.iterations() == before.iterations()
        &&& self.ticks() == before.ticks()
        &&& forall|x: int|
            0 <= x < before.num_components() && x != k ==> self.component(x) == before.component(x)
    }
}

impl Circuit {
    /// Whether this circuit and `other` cannot be told apart from outside:
    /// the same components in the same states behind the same ports, and every
    /// wire at the same voltage, with the same slots, and as stable.
    pub open spec fn same_state(&self, other: &Circuit) -> bool {
        &&& self.num_wires() == other.num_wires()
        &&& self.num_components() == other.num_components()
        &&& self.ticks() == other.ticks()
        &&& self.iterations() == other.iterations()
        &&& forall|k: int|
            0 <= k < self.num_components() ==> #[trigger] self.component(k) == other.component(k)
        &&& forall|k: int|
            0 <= k < self.num_components() ==> #[trigger] self.net().input_wires(k)
                == other.net().input_wires(k)
        &&& forall|k: int|
            0 <= k < self.num_components() ==> #[trigger] self.net().output_pins(k)
                == other.net().output_pins(k)
        &&& forall|w: int|
            0 <= w < self.num_wires() ==> #[trigger] self.net().voltage(w) == other.net().voltage(
                w,
            )
        &&& forall|w: int|
            0 <= w < self.num_wires() ==> #[trigger] self.net().slots(w) == other.net().slots(w)
        &&& forall|w: int| 0 <= w < self.num_wires() ==> #[trigger] self.unstable(w) == other.unstable(w)
    }

    /// A circuit is stable exactly if none of its wires is unstable.
    pub proof fn lemma_stable_wires(&self)
        requires
            self.wf(),
        ensures
            self.is_stable() <==> forall|w: int| 0 <= w < self.num_wires() ==> !self.unstable(w),
    {
        if self.net.dirty@.len() > 0 {
            let w = self.net.dirty@[0];
            assert(self.net.dirty@.contains(w));
            assert(self.unstable(w as int));
        }
    }

    /// Two circuits in the same state, with the same ports, read and drive
    /// the same.
    proof fn lemma_same_ports(&self, other: &Circuit, k: int)
        requires
            self.same_state(other),
            0 <= k < self.num_components(),
            self.wf(),
            other.wf(),
        ensures
            self.net().inputs_of(k) == other.net().inputs_of(k),
            self.net().outputs_of(k) == other.net().outputs_of(k),
            self.resolved_inputs(k) == other.resolved_inputs(k),
            self.triggered(k) == other.triggered(k),
    {
        assert(self.net().input_wires(k) == other.net().input_wires(k));
        assert(self.net().output_pins(k) == other.net().output_pins(k));
        assert forall|i: int| 0 <= i < self.net().input_wires(k).len() implies 0 <= (
        #[trigger] self.net().input_wires(k)[i]) < self.num_wires() by {
            assert(self.net.ports[k].inputs@[i] < self.net.wires.len());
        }
        assert(self.net().inputs_of(k) =~= other.net().inputs_of(k));
        assert(self.resolved_inputs(k) =~= other.resolved_inputs(k)) by {
            assert forall|i: int| 0 <= i < self.net().input_wires(k).len() implies self.resolved_voltage(
                self.net().input_wires(k)[i] as int,
            ) == other.resolved_voltage(self.net().input_wires(k)[i] as int) by {
                let w = self.net().input_wires(k)[i] as int;
                assert(0 <= self.net().input_wires(k)[i] < self.num_wires());
                assert(self.unstable(w) == other.unstable(w));
            }
        }
        assert(self.net().outputs_of(k) =~= other.net().outputs_of(k)) by {
            assert forall|j: int| 0 <= j < self.net().output_pins(k).len() implies self.net().slot_at(
                self.net().output_pins(k)[j],
            ) == other.net().slot_at(self.net().output_pins(k)[j]) by {
                let pin = self.net().output_pins(k)[j];
                if pin.connected() {
                    assert(self.net.ports[k].outputs@[j].connected());
                    assert(pin.wire_id < self.net.wires.len());
                    assert(self.net().slots(pin.wire_id as int) == other.net().slots(
                        pin.wire_id as int,
                    ));
                }
            }
        }
        if self.triggered(k) {
            let i = choose|i: int|
                0 <= i < self.net().input_wires(k).len() && self.changes(
                    (#[trigger] self.net().input_wires(k)[i]) as int,
                );
            let w = self.net().input_wires(k)[i] as int;
            assert(0 <= self.net().input_wires(k)[i] < self.num_wires());
            assert(self.unstable(w) == other.unstable(w));
            assert(other.changes(other.net().input_wires(k)[i] as int));
        }
        if other.triggered(k) {
            let i = choose|i: int|
                0 <= i < other.net().input_wires(k).len() && other.changes(
                    (#[trigger] other.net().input_wires(k)[i]) as int,
                );
            let w = other.net().input_wires(k)[i] as int;
            assert(0 <= self.net().input_wires(k)[i] < self.num_wires());
            assert(self.unstable(w) == other.unstable(w));
            assert(self.changes(self.net().input_wires(k)[i] as int));
        }
    }

    /// Two circuits that agree on every component, on what every component
    /// drives, and on every slot that is behind no pin, agree on every slot.
    pub proof fn lemma_same_slots(&self, other: &Circuit)
        requires
            self.wf(),
            other.wf(),
            self.num_wires() == other.num_wires(),
            self.num_components() == other.num_components(),
            forall|k: int|
                0 <= k < self.num_components() ==> #[trigger] self.net().output_pins(k)
                    == other.net().output_pins(k),
            forall|k: int|
                0 <= k < self.num_components() ==> #[trigger] self.net().outputs_of(k)
                    == other.net().outputs_of(k),
            forall|w: int|
                0 <= w < self.num_wires() ==> (#[trigger] self.net().slots(w)).len()
                    == other.net().slots(w).len(),
            forall|w: int, s: int|
                0 <= w < self.num_wires() && 0 <= s < self.net().slots(w).len()
                    && !self.net().pinned(w, s) ==> #[trigger] self.net().slots(w)[s]
                    == other.net().slots(w)[s],
        ensures
            forall|w: int|
                0 <= w < self.num_wires() ==> #[trigger] self.net().slots(w) == other.net().slots(w),
    {
        assert forall|w: int| 0 <= w < self.num_wires() implies #[trigger] self.net().slots(w)
            == other.net().slots(w) by {
            assert forall|s: int| 0 <= s < self.net().slots(w).len() implies self.net().slots(w)[s]
                == other.net().slots(w)[s] by {
                if self.net().pinned(w, s) {
                    let (k, j) = choose|k: int, j: int|
                        0 <= k < self.net().num_components() && 0 <= j < self.net().output_pins(
                            k,
                        ).len() && #[trigger] self.net().output_pins(k)[j] == (Pin {
                            wire_id: w as usize,
                            input_id: s as usize,
                        });
                    let pin = self.net().output_pins(k)[j];
                    assert(self.net.wires[w].inputs@.len() <= usize::MAX);
                    assert(pin.connected());
                    assert(self.net().outputs_of(k)[j] == self.net().slot_at(pin));
                    assert(other.net().output_pins(k)[j] == pin);
                    assert(other.net().outputs_of(k)[j] == other.net().slot_at(pin));
                }
            }
            assert(self.net().slots(w) =~= other.net().slots(w));
        }
    }

    /// Determinism of an iteration: two circuits of library components that
    /// cannot be told apart cannot be told apart after one iteration each.
    pub proof fn lemma_iterated_deterministic(&self, other: &Circuit, a: &Circuit, b: &Circuit)
        requires
            a.wf(),
            b.wf(),
            a.library_only(),
            a.same_state(b),
            self.iterated(a),
            other.iterated(b),
        ensures
            self.same_state(other),
            self.library_only(),
    {
        a.lemma_wiring();
        b.lemma_wiring();
        self.lemma_wiring();
        other.lemma_wiring();
        assert forall|k: int| 0 <= k < a.num_components() implies self.net().input_wires(k)
            == a.net().input_wires(k) && self.net().output_pins(k) == a.net().output_pins(k)
            && other.net().input_wires(k) == b.net().input_wires(k) && other.net().output_pins(k)
            == b.net().output_pins(k) by {
            assert(self.wiring().input_wires[k] == a.wiring().input_wires[k]);
            assert(self.wiring().output_pins[k] == a.wiring().output_pins[k]);
            assert(other.wiring().input_wires[k] == b.wiring().input_wires[k]);
            assert(other.wiring().output_pins[k] == b.wiring().output_pins[k]);
        }
        assert forall|k: int| 0 <= k < a.num_components() implies #[trigger] self.component(k)
            == other.component(k) && !(self.component(k) is Custom) by {
            a.lemma_same_ports(b, k);
            assert(a.component(k) == b.component(k));
            assert(!(a.component(k) is Custom));
            assert(self.component_iterated(a, k));
            assert(other.component_iterated(b, k));
        }
        assert forall|k: int| 0 <= k < a.num_components() implies #[trigger] self.net().outputs_of(
            k,
        ) == other.net().outputs_of(k) by {
            a.lemma_same_ports(b, k);
            assert(a.component(k) == b.component(k));
            assert(!(a.component(k) is Custom));
            assert(self.component_iterated(a, k));
            assert(other.component_iterated(b, k));
        }
        assert forall|w: int, s: int|
            0 <= w < self.num_wires() && 0 <= s < self.net().slots(w).len()
                && !self.net().pinned(w, s) implies #[trigger] self.net().slots(w)[s]
            == other.net().slots(w)[s] by {
            assert(a.net().slots(w) == b.net().slots(w));
            if a.net().pinned(w, s) {
                let (k, j) = choose|k: int, j: int|
                    0 <= k < a.net().num_components() && 0 <= j < a.net().output_pins(k).len()
                        && #[trigger] a.net().output_pins(k)[j] == (Pin {
                        wire_id: w as usize,
                        input_id: s as usize,
                    });
                assert(self.net().output_pins(k)[j] == (Pin {
                    wire_id: w as usize,
                    input_id: s as usize,
                }));
            }
            if b.net().pinned(w, s) {
                let (k, j) = choose|k: int, j: int|
                    0 <= k < b.net().num_components() && 0 <= j < b.net().output_pins(k).len()
                        && #[trigger] b.net().output_pins(k)[j] == (Pin {
                        wire_id: w as usize,
                        input_id: s as usize,
                    });
                assert(a.net().output_pins(k)[j] == (Pin {
                    wire_id: w as usize,
                    input_id: s as usize,
                }));
            }
        }
        assert forall|w: int| 0 <= w < self.num_wires() implies (#[trigger] self.net().slots(w)).len()
            == other.net().slots(w).len() by {
            assert(a.net().slots(w) == b.net().slots(w));
        }
        self.lemma_same_slots(other);
        assert forall|w: int| 0 <= w < self.num_wires() implies #[trigger] self.net().voltage(w)
            == other.net().voltage(w) by {
            assert(a.unstable(w) == b.unstable(w));
            assert(a.net().slots(w) == b.net().slots(w));
            assert(a.net().voltage(w) == b.net().voltage(w));
        }
        assert forall|k: int| 0 <= k < b.num_components() implies !(#[trigger] b.component(
            k,
        ) is Custom) by {
            assert(a.component(k) == b.component(k));
        }
        assert forall|w: int| 0 <= w < self.num_wires() implies #[trigger] self.unstable(w)
            == other.unstable(w) by {
            assert(a.net().slots(w) == b.net().slots(w));
            assert(self.net().slots(w) == other.net().slots(w));
        }
    }

    /// Determinism of a tick: two circuits of library components that cannot
    /// be told apart cannot be told apart after one tick each.
    pub proof fn lemma_ticked_deterministic(&self, other: &Circuit, a: &Circuit, b: &Circuit)
        requires
            a.wf(),
            b.wf(),
            a.library_only(),
            a.same_state(b),
            self.ticked(a),
            other.ticked(b),
        ensures
            self.same_state(other),
            self.library_only(),
    {
        a.lemma_wiring();
        b.lemma_wiring();
        self.lemma_wiring();
        other.lemma_wiring();
        assert forall|k: int| 0 <= k < a.num_components() implies self.net().input_wires(k)
            == a.net().input_wires(k) && self.net().output_pins(k) == a.net().output_pins(k)
            && other.net().input_wires(k) == b.net().input_wires(k) && other.net().output_pins(k)
            == b.net().output_pins(k) by {
            assert(self.wiring().input_wires[k] == a.wiring().input_wires[k]);
            assert(self.wiring().output_pins[k] == a.wiring().output_pins[k]);
            assert(other.wiring().input_wires[k] == b.wiring().input_wires[k]);
            assert(other.wiring().output_pins[k] == b.wiring().output_pins[k]);
        }
        assert forall|k: int| 0 <= k < a.num_components() implies #[trigger] self.component(k)
            == other.component(k) && !(self.component(k) is Custom) by {
            a.lemma_same_ports(b, k);
            assert(a.component(k) == b.component(k));
            assert(!(a.component(k) is Custom));
            assert(self.component_ticked(a, k));
            assert(other.component_ticked(b, k));
        }
        assert forall|k: int| 0 <= k < a.num_components() implies #[trigger] self.net().outputs_of(
            k,
        ) == other.net().outputs_of(k) by {
            a.lemma_same_ports(b, k);
            assert(a.component(k) == b.component(k));
            assert(!(a.component(k) is Custom));
            assert(self.component_ticked(a, k));
            assert(other.component_ticked(b, k));
        }
        assert forall|w: int, s: int|
            0 <= w < self.num_wires() && 0 <= s < self.net().slots(w).len()
                && !self.net().pinned(w, s) implies #[trigger] self.net().slots(w)[s]
            == other.net().slots(w)[s] by {
            assert(a.net().slots(w) == b.net().slots(w));
            if a.net().pinned(w, s) {
                let (k, j) = choose|k: int, j: int|
                    0 <= k < a.net().num_components() && 0 <= j < a.net().output_pins(k).len()
                        && #[trigger] a.net().output_pins(k)[j] == (Pin {
                        wire_id: w as usize,
                        input_id: s as usize,
                    });
                assert(self.net().output_pins(k)[j] == (Pin {
                    wire_id: w as usize,
                    input_id: s as usize,
                }));
            }
            if b.net().pinned(w, s) {
                let (k, j) = choose|k: int, j: int|
                    0 <= k < b.net().num_components() && 0 <= j < b.net().output_pins(k).len()
                        && #[trigger] b.net().output_pins(k)[j] == (Pin {
                        wire_id: w as usize,
                        input_id: s as usize,
                    });
                assert(a.net().output_pins(k)[j] == (Pin {
                    wire_id: w as usize,
                    input_id: s as usize,
                }));
            }
        }
        assert forall|w: int| 0 <= w < self.num_wires() implies (#[trigger] self.net().slots(w)).len()
            == other.net().slots(w).len() by {
            assert(a.net().slots(w) == b.net().slots(w));
        }
        self.lemma_same_slots(other);
        assert forall|w: int| 0 <= w < self.num_wires() implies #[trigger] self.net().voltage(w)
            == other.net().voltage(w) by {
            assert(a.net().voltage(w) == b.net().voltage(w));
        }
        assert forall|k: int| 0 <= k < b.num_components() implies !(#[trigger] b.component(
            k,
        ) is Custom) by {
            assert(a.component(k) == b.component(k));
        }
        assert forall|w: int| 0 <= w < self.num_wires() implies #[trigger] self.unstable(w)
            == other.unstable(w) by {
            assert(a.net().slots(w) == b.net().slots(w));
            assert(self.net().slots(w) == other.net().slots(w));
            assert(a.unstable(w) == b.unstable(w));
        }
    }

    /// Two runs of iterations from circuits that cannot be told apart pass
    /// through circuits that cannot be told apart.
    proof fn lemma_traces_agree(first: Seq<Circuit>, second: Seq<Circuit>, i: int)
        requires
            0 <= i < first.len(),
            i < second.len(),
            first[0].wf(),
            second[0].wf(),
            first[0].library_only(),
            first[0].same_state(&second[0]),
            forall|j: int| 1 <= j < first.len() ==> (#[trigger] first[j]).iterated(&first[j - 1]),
            forall|j: int| 1 <= j < second.len() ==> (#[trigger] second[j]).iterated(&second[j - 1]),
        ensures
            first[i].same_state(&second[i]),
            first[i].library_only(),
            first[i].wf(),
            second[i].wf(),
        decreases i,
    {
        if i > 0 {
            Circuit::lemma_traces_agree(first, second, i - 1);
            assert(first[i].iterated(&first[i - 1]));
            assert(second[i].iterated(&second[i - 1]));
            first[i].lemma_iterated_deterministic(&second[i], &first[i - 1], &second[i - 1]);
        }
    }

    /// Determinism of `propagate`: from two circuits of library components
    /// that cannot be told apart, and with the same budget, it gives the same
    /// result and leaves two circuits that cannot be told apart.
    pub proof fn lemma_propagated_deterministic(
        &self,
        other: &Circuit,
        a: &Circuit,
        b: &Circuit,
        max_iterations: nat,
        stable: bool,
        other_stable: bool,
    )
        requires
            a.wf(),
            b.wf(),
            a.library_only(),
            a.same_state(b),
            self.propagated(a, max_iterations, stable),
            other.propagated(b, max_iterations, other_stable),
        ensures
            stable == other_stable,
            self.same_state(other),
            self.library_only(),
    {
        let first = choose|trace: Seq<Circuit>| #[trigger]
            self.ends(a, trace, max_iterations, stable);
        let second = choose|trace: Seq<Circuit>| #[trigger]
            other.ends(b, trace, max_iterations, other_stable);
        Circuit::lemma_runs_agree(first, second, max_iterations, stable, other_stable);
    }

    /// Two runs of `propagate` from circuits that cannot be told apart are
    /// as long, and end alike.
    proof fn lemma_runs_agree(
        first: Seq<Circuit>,
        second: Seq<Circuit>,
        max_iterations: nat,
        stable: bool,
        other_stable: bool,
    )
        requires
            1 <= first.len() <= max_iterations + 1,
            1 <= second.len() <= max_iterations + 1,
            first[0].wf(),
            second[0].wf(),
            first[0].library_only(),
            first[0].same_state(&second[0]),
            forall|j: int| 1 <= j < first.len() ==> (#[trigger] first[j]).iterated(&first[j - 1]),
            forall|j: int| 1 <= j < second.len() ==> (#[trigger] second[j]).iterated(&second[j - 1]),
            forall|j: int| 1 <= j < first.len() - 1 ==> !(#[trigger] first[j]).is_stable(),
            forall|j: int| 1 <= j < second.len() - 1 ==> !(#[trigger] second[j]).is_stable(),
            stable == (first.len() > 1 && first[first.len() - 1].is_stable()),
            other_stable == (second.len() > 1 && second[second.len() - 1].is_stable()),
            !stable ==> first.len() == max_iterations + 1,
            !other_stable ==> second.len() == max_iterations + 1,
        ensures
            stable == other_stable,
            first[first.len() - 1].same_state(&second[second.len() - 1]),
            first[first.len() - 1].library_only(),
    {
        let n = first.len() as int;
        let m = second.len() as int;
        let i = if n < m {
            n - 1
        } else {
            m - 1
        };
        Circuit::lemma_traces_agree(first, second, i);
        let x = first[i];
        let y = second[i];
        assert(x.is_stable() == y.is_stable()) by {
            x.lemma_stable_wires();
            y.lemma_stable_wires();
            if x.is_stable() {
                assert forall|w: int| 0 <= w < y.num_wires() implies !y.unstable(w) by {
                    assert(x.unstable(w) == y.unstable(w));
                }
            }
            if y.is_stable() {
                assert forall|w: int| 0 <= w < x.num_wires() implies !x.unstable(w) by {
                    assert(x.unstable(w) == y.unstable(w));
                }
            }
        }
        if n < m {
            assert(stable);
            assert(!second[i].is_stable());
        } else if m < n {
            assert(other_stable);
            assert(!first[i].is_stable());
        }
    }
}

} // verus!
