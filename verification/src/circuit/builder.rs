//! Assembling a circuit: wires and components are added one by one, and
//! `build` freezes the wiring.
use vstd::prelude::*;
use crate::circuit::{
    overlay, Circuit, Component, ComponentInterface, ComponentRef, ComponentSet, ComponentWrapper,
    Ports, Wire, WireRef, NULL_INDEX, TAIL_INDEX,
};
use crate::components::kind::{AnyComponent, ComponentKind};
use crate::inline::{IdVec, Pin, PinVec, SlotVec};
use crate::voltage::{resolution, strong_pull, Voltage, VoltageInput};

verus! {

/// A wire all of whose slots hold a strong `Low` resolves to `Low`, and a
/// wire without slots floats.
pub proof fn lemma_resolution_initial(n: nat)
    ensures
        resolution(Seq::new(n, |i: int| VoltageInput::strong(Voltage::Low))) == (if n > 0 {
            Voltage::Low
        } else {
            Voltage::Floating
        }),
        strong_pull(Seq::new(n, |i: int| VoltageInput::strong(Voltage::Low))) == (if n > 0 {
            Voltage::Low
        } else {
            Voltage::Floating
        }),
    decreases n,
{
    let slots = Seq::new(n, |i: int| VoltageInput::strong(Voltage::Low));
    if n > 0 {
        lemma_resolution_initial((n - 1) as nat);
        assert(slots.drop_last() =~= Seq::new(
            (n - 1) as nat,
            |i: int| VoltageInput::strong(Voltage::Low),
        ));
    }
}

/// A wire under construction: the components that read it, in the order in
/// which they were added, and the number of slots handed out on it.
#[derive(Debug)]
pub struct PreparedWire {
    components: IdVec,
    num_inputs: usize,
}

impl PreparedWire {
    /// Hands out the next free slot of the wire.
    fn add_input(&mut self) -> (slot: usize)
        requires
            old(self).num_inputs < usize::MAX,
        ensures
            slot == old(self).num_inputs,
            final(self).num_inputs == old(self).num_inputs + 1,
            final(self).components == old(self).components,
    {
        let result: usize = self.num_inputs;
        self.num_inputs += 1;
        result
    }
}

/// Whether `list` holds `x`.
fn id_contains(list: &IdVec, x: usize) -> (found: bool)
    ensures
        found == list@.contains(x),
{
    let n: usize = list.len();
    let mut i: usize = 0;
    while i < n
        invariant
            0 <= i <= n == list@.len(),
            forall|j: int| 0 <= j < i ==> list@[j] != x,
        decreases n - i,
    {
        if list.get(i) == x {
            return true;
        }
        i += 1;
    }
    false
}

/// Whether two lists hold the same ids in the same order.
fn same_ids(a: &IdVec, b: &IdVec) -> (same: bool)
    ensures
        same == (a@ == b@),
{
    let n: usize = a.len();
    if b.len() != n {
        return false;
    }
    let mut i: usize = 0;
    while i < n
        invariant
            0 <= i <= n == a@.len() == b@.len(),
            forall|j: int| 0 <= j < i ==> a@[j] == b@[j],
        decreases n - i,
    {
        if a.get(i) != b.get(i) {
            return false;
        }
        i += 1;
    }
    proof {
        assert(a@ =~= b@);
    }
    true
}

/// The id of the set with the members `list`: that of the set that holds
/// them already, or that of a new set behind those there.
fn intern(component_sets: &mut Vec<ComponentSet>, list: IdVec) -> (id: usize)
    requires
        forall|s: int, t: int|
            0 <= s < t < old(component_sets).len() ==> old(component_sets)[s].components@ != old(component_sets)[t].components@,
    ensures
        id < final(component_sets).len(),
        final(component_sets)[id as int].components@ == list@,
        final(component_sets).len() == old(component_sets).len() || (final(component_sets).len()
            == old(component_sets).len() + 1 && id == old(component_sets).len()
            && final(component_sets)[id as int].next == NULL_INDEX),
        forall|s: int|
            0 <= s < old(component_sets).len() ==> final(component_sets)[s] == old(component_sets)[s],
        forall|s: int, t: int|
            0 <= s < t < final(component_sets).len() ==> final(component_sets)[s].components@
                != final(component_sets)[t].components@,
{
    let n: usize = component_sets.len();
    let mut s: usize = 0;
    while s < n
        invariant
            0 <= s <= n == component_sets.len(),
            component_sets == old(component_sets),
            forall|s: int, t: int|
                0 <= s < t < component_sets.len() ==> component_sets[s].components@
                    != component_sets[t].components@,
            forall|t: int| 0 <= t < s ==> component_sets[t].components@ != list@,
        decreases n - s,
    {
        if same_ids(&component_sets[s].components, &list) {
            return s;
        }
        s += 1;
    }
    component_sets.push(ComponentSet { components: list, next: NULL_INDEX });
    n
}

/// A circuit under construction: wires and components can still be added.
pub struct CircuitBuilder {
    wires: Vec<PreparedWire>,
    ports: Vec<Ports>,
    components: Vec<ComponentWrapper>,
    pins: Ghost<nat>,
}

impl CircuitBuilder {
    /// The number of wires so far.
    pub closed spec fn num_wires(&self) -> nat {
        self.wires.len() as nat
    }

    /// The number of components so far.
    pub closed spec fn num_components(&self) -> nat {
        self.components.len() as nat
    }

    /// The number of outputs of all components so far. No wire has more
    /// slots than that.
    pub closed spec fn num_pins(&self) -> nat {
        self.pins@
    }

    /// The number of slots handed out on wire `w`: one for each output
    /// that drives the wire.
    pub closed spec fn num_slots(&self, w: int) -> nat {
        self.wires[w].num_inputs as nat
    }

    /// The components that read wire `w`, in increasing order.
    pub closed spec fn readers(&self, w: int) -> Seq<usize> {
        self.wires[w].components@
    }

    /// The wires that component `k` reads, in the order of its inputs.
    pub closed spec fn input_wires(&self, k: int) -> Seq<usize> {
        self.ports[k].inputs@
    }

    /// The pins that component `k` drives, in the order of its outputs.
    pub closed spec fn output_pins(&self, k: int) -> Seq<Pin> {
        self.ports[k].outputs@
    }

    /// Component `k` as it was added.
    pub closed spec fn component(&self, k: int) -> ComponentKind {
        self.components[k].component_impl
    }

    /// Every input names a wire, every connected pin a slot that was handed
    /// out, no slot is behind two pins, and every component accepts its
    /// ports.
    closed spec fn ports_wf(&self) -> bool {
        &&& self.ports.len() == self.components.len()
        &&& forall|k: int, i: int|
            0 <= k < self.ports.len() && 0 <= i < self.ports[k].inputs@.len()
                ==> #[trigger] self.ports[k].inputs@[i] < self.wires.len()
        &&& forall|k: int, j: int|
            0 <= k < self.ports.len() && 0 <= j < self.ports[k].outputs@.len() && (
            #[trigger] self.ports[k].outputs@[j]).connected() ==> {
                &&& self.ports[k].outputs@[j].wire_id < self.wires.len()
                &&& self.ports[k].outputs@[j].input_id
                    < self.wires[self.ports[k].outputs@[j].wire_id as int].num_inputs
            }
        &&& forall|k1: int, j1: int, k2: int, j2: int|
            0 <= k1 < self.ports.len() && 0 <= j1 < self.ports[k1].outputs@.len() && 0 <= k2
                < self.ports.len() && 0 <= j2 < self.ports[k2].outputs@.len() && (k1 != k2 || j1
                != j2) && (#[trigger] self.ports[k1].outputs@[j1]).connected()
                ==> self.ports[k1].outputs@[j1] != #[trigger] self.ports[k2].outputs@[j2]
        &&& forall|k: int|
            0 <= k < self.components.len() ==> (#[trigger] self.components[k]).component_impl.accepts(
                self.ports[k].inputs@.len(),
                self.ports[k].outputs@.len(),
            ) && self.components[k].iteration == NULL_INDEX
    }

    /// The reader list of every wire is strictly increasing and holds
    /// exactly the components that read the wire.
    closed spec fn readers_wf(&self) -> bool {
        &&& forall|w: int, i: int, j: int|
            0 <= w < self.wires.len() && 0 <= i < j < self.wires[w].components@.len()
                ==> #[trigger] self.wires[w].components@[i] < #[trigger] self.wires[w].components@[j]
        &&& forall|w: int, i: int|
            0 <= w < self.wires.len() && 0 <= i < self.wires[w].components@.len() ==> {
                &&& (#[trigger] self.wires[w].components@[i]) < self.ports.len()
                &&& self.ports[self.wires[w].components@[i] as int].inputs@.contains(w as usize)
            }
        &&& forall|k: int, i: int|
            0 <= k < self.ports.len() && 0 <= i < self.ports[k].inputs@.len()
                ==> self.wires[(#[trigger] self.ports[k].inputs@[i]) as int].components@.contains(
                k as usize,
            )
    }

    /// The invariant of a builder.
    pub closed spec fn wf(&self) -> bool {
        &&& self.wires.len() < TAIL_INDEX
        &&& self.ports_wf()
        &&& self.readers_wf()
        &&& forall|w: int|
            0 <= w < self.wires.len() ==> (#[trigger] self.wires[w]).num_inputs <= self.pins@
    }

    /// A builder without wires and components.
    pub fn new() -> (builder: Self)
        ensures
            builder.wf(),
            builder.num_wires() == 0,
            builder.num_components() == 0,
            builder.num_pins() == 0,
    {
        CircuitBuilder {
            wires: Vec::new(),
            ports: Vec::new(),
            components: Vec::new(),
            pins: Ghost(0),
        }
    }

    /// Adds a wire that nothing reads or drives yet.
    pub fn add_wire(&mut self) -> (wire: WireRef)
        requires
            old(self).wf(),
            old(self).num_wires() + 1 < TAIL_INDEX,
        ensures
            final(self).wf(),
            wire.index() == old(self).num_wires(),
            final(self).num_wires() == old(self).num_wires() + 1,
            final(self).num_components() == old(self).num_components(),
            final(self).num_pins() == old(self).num_pins(),
            final(self).num_slots(wire.index()) == 0,
            final(self).readers(wire.index()) == Seq::<usize>::empty(),
            forall|w: int|
                0 <= w < old(self).num_wires() ==> final(self).num_slots(w) == old(self).num_slots(w)
                    && final(self).readers(w) == old(self).readers(w),
            forall|k: int|
                0 <= k < old(self).num_components() ==> final(self).input_wires(k) == old(self).input_wires(k) && final(self).output_pins(k) == old(self).output_pins(k)
                    && final(self).component(k) == old(self).component(k),
    {
        let result = WireRef(self.wires.len());
        self.wires.push(PreparedWire { components: IdVec::new(), num_inputs: 0 });
        proof {
            assert(self.ports_wf()) by {
                assert forall|k: int, j: int|
                    0 <= k < self.ports.len() && 0 <= j < self.ports[k].outputs@.len() && (
                    #[trigger] self.ports[k].outputs@[j]).connected() implies {
                    &&& self.ports[k].outputs@[j].wire_id < self.wires.len()
                    &&& self.ports[k].outputs@[j].input_id
                        < self.wires[self.ports[k].outputs@[j].wire_id as int].num_inputs
                } by {
                    let w = old(self).ports[k].outputs@[j].wire_id as int;
                    assert(self.wires[w] == old(self).wires[w]);
                }
            }
            assert(self.readers_wf()) by {
                assert forall|w: int| 0 <= w < old(self).wires.len() implies self.wires[w]
                    == old(self).wires[w] by {}
                assert(self.wires[old(self).wires.len() as int].components@.len() == 0);
                assert forall|w: int, i: int, j: int|
                    0 <= w < self.wires.len() && 0 <= i < j < self.wires[w].components@.len() implies #[trigger] self.wires[w].components@[i]
                    < #[trigger] self.wires[w].components@[j] by {
                    assert(old(self).wires[w].components@[i] < old(self).wires[w].components@[j]);
                }
                assert forall|w: int, i: int|
                    0 <= w < self.wires.len() && 0 <= i < self.wires[w].components@.len() implies {
                    &&& (#[trigger] self.wires[w].components@[i]) < self.ports.len()
                    &&& self.ports[self.wires[w].components@[i] as int].inputs@.contains(w as usize)
                } by {
                    assert(old(self).wires[w].components@[i] < old(self).ports.len());
                    assert(old(self).ports[old(self).wires[w].components@[i] as int].inputs@.contains(
                        w as usize,
                    ));
                }
                assert forall|k: int, i: int|
                    0 <= k < self.ports.len() && 0 <= i < self.ports[k].inputs@.len() implies self.wires[(
                #[trigger] self.ports[k].inputs@[i]) as int].components@.contains(k as usize) by {
                    let w = old(self).ports[k].inputs@[i] as int;
                    assert(self.wires[w] == old(self).wires[w]);
                }
            }
        }
        result
    }
}

/// How many of the first `n` of `wires` are the wire of index `w`.
pub open spec fn occurrences(wires: Seq<WireRef>, w: int, n: int) -> nat
    decreases n,
{
    if n <= 0 {
        0
    } else if wires[n - 1].index() == w {
        occurrences(wires, w, n - 1) + 1
    } else {
        occurrences(wires, w, n - 1)
    }
}

/// Counting further never counts less, and never more than was looked at.
pub proof fn lemma_occurrences(wires: Seq<WireRef>, w: int, a: int, b: int)
    requires
        0 <= a <= b,
    ensures
        occurrences(wires, w, a) <= occurrences(wires, w, b) <= occurrences(wires, w, a) + (b - a),
        occurrences(wires, w, a) <= a,
    decreases b,
{
    if a < b {
        lemma_occurrences(wires, w, a, b - 1);
    } else if a > 0 {
        lemma_occurrences(wires, w, a - 1, a - 1);
    }
}

/// The indices of the wires `wires`.
pub open spec fn indices(wires: Seq<WireRef>) -> Seq<usize> {
    Seq::new(wires.len(), |i: int| wires[i].index() as usize)
}

/// The pin that the builder hands out for output `j` of a component whose
/// outputs go to `wires`, when `slots` slots were taken on the wire before:
/// the next free slot of the wire, or the pin without a wire.
pub open spec fn pin_for(wires: Seq<WireRef>, j: int, slots: nat) -> Pin {
    if wires[j].index() == NULL_INDEX {
        Pin { wire_id: NULL_INDEX, input_id: 0 }
    } else {
        Pin {
            wire_id: wires[j].index() as usize,
            input_id: (slots + occurrences(wires, wires[j].index(), j)) as usize,
        }
    }
}

impl CircuitBuilder {
    /// Adds a component of the library that reads the wires `inputs` and
    /// drives the wires `outputs`, in this order. An output that goes to
    /// `WireRef::none()` is not connected.
    pub fn add_component<C: AnyComponent>(
        &mut self,
        component: C,
        inputs: &[WireRef],
        outputs: &[WireRef],
    ) -> (cref: ComponentRef)
        requires
            old(self).wf(),
            component.accepts(inputs@.len(), outputs@.len()),
            forall|i: int| 0 <= i < inputs@.len() ==> 0 <= (#[trigger] inputs@[i]).index() < old(self).num_wires(),
            forall|j: int|
                0 <= j < outputs@.len() ==> (#[trigger] outputs@[j]).index() == NULL_INDEX || 0
                    <= outputs@[j].index() < old(self).num_wires(),
            old(self).num_pins() + outputs@.len() <= usize::MAX,
        ensures
            final(self).wf(),
            final(self).added(*old(self), component.kind_of(), inputs@, outputs@),
            cref.index() == old(self).num_components(),
    {
        let kind = component.into_kind();
        self.add_boxed_component(kind, inputs, outputs)
    }

    /// What adding `component` with the given ports makes of the builder
    /// `before`: a new last component with these inputs and with a fresh slot
    /// for every connected output, which every wire among the inputs lists
    /// as a reader.
    pub open spec fn added(
        &self,
        before: CircuitBuilder,
        component: ComponentKind,
        inputs: Seq<WireRef>,
        outputs: Seq<WireRef>,
    ) -> bool {
        let k = before.num_components() as int;
        &&& self.num_wires() == before.num_wires()
        &&& self.num_components() == k + 1
        &&& self.num_pins() == before.num_pins() + outputs.len()
        &&& self.component(k) == component
        &&& self.input_wires(k) == indices(inputs)
        &&& self.output_pins(k).len() == outputs.len()
        &&& forall|j: int|
            0 <= j < outputs.len() ==> #[trigger] self.output_pins(k)[j] == pin_for(
                outputs,
                j,
                before.num_slots(outputs[j].index()),
            )
        &&& forall|w: int|
            0 <= w < before.num_wires() ==> #[trigger] self.num_slots(w) == before.num_slots(w)
                + occurrences(outputs, w, outputs.len() as int)
        &&& forall|w: int|
            0 <= w < before.num_wires() ==> #[trigger] self.readers(w) == (if indices(
                inputs,
            ).contains(w as usize) {
                before.readers(w).push(k as usize)
            } else {
                before.readers(w)
            })
        &&& forall|x: int|
            0 <= x < k ==> #[trigger] self.input_wires(x) == before.input_wires(x)
                && self.output_pins(x) == before.output_pins(x) && self.component(x)
                == before.component(x)
    }

    /// Adds a component, of the library or not, that reads the wires
    /// `inputs` and drives the wires `outputs`, in this order.
    pub fn add_boxed_component(
        &mut self,
        component: ComponentKind,
        inputs: &[WireRef],
        outputs: &[WireRef],
    ) -> (cref: ComponentRef)
        requires
            old(self).wf(),
            component.accepts(inputs@.len(), outputs@.len()),
            forall|i: int| 0 <= i < inputs@.len() ==> 0 <= (#[trigger] inputs@[i]).index() < old(self).num_wires(),
            forall|j: int|
                0 <= j < outputs@.len() ==> (#[trigger] outputs@[j]).index() == NULL_INDEX || 0
                    <= outputs@[j].index() < old(self).num_wires(),
            old(self).num_pins() + outputs@.len() <= usize::MAX,
        ensures
            final(self).wf(),
            final(self).added(*old(self), component, inputs@, outputs@),
            cref.index() == old(self).num_components(),
    {
        let result = ComponentRef(self.components.len());
        let k: usize = self.components.len();
        let mut ins = IdVec::new();
        let mut outs = PinVec::new();
        let mut i: usize = 0;
        while i < inputs.len()
            invariant
                0 <= i <= inputs@.len(),
                old(self).wf(),
                k == old(self).components.len(),
                self.ports == old(self).ports,
                self.components == old(self).components,
                self.pins == old(self).pins,
                self.wires.len() == old(self).wires.len(),
                forall|j: int| 0 <= j < inputs@.len() ==> 0 <= (#[trigger] inputs@[j]).index() < old(self).num_wires(),
                ins@ == indices(inputs@).take(i as int),
                forall|w: int|
                    0 <= w < self.wires.len() ==> (#[trigger] self.wires[w]).num_inputs == old(self).wires[w].num_inputs,
                forall|w: int|
                    0 <= w < self.wires.len() ==> (#[trigger] self.wires[w]).components@ == (if ins@.contains(
                        w as usize,
                    ) {
                        old(self).wires[w].components@.push(k)
                    } else {
                        old(self).wires[w].components@
                    }),
            decreases inputs@.len() - i,
        {
            let w: usize = inputs[i].0;
            let ghost before_ins = ins@;
            let ghost before = *self;
            ins.push(w);
            let wire = &mut self.wires[w];
            if !id_contains(&wire.components, k) {
                wire.components.push(k);
            }
            proof {
                assert(ins@ =~= indices(inputs@).take(i as int + 1));
                assert forall|x: int| 0 <= x < self.wires.len() implies (
                #[trigger] self.wires[x]).components@ == (if ins@.contains(x as usize) {
                    old(self).wires[x].components@.push(k)
                } else {
                    old(self).wires[x].components@
                }) by {
                    assert(ins@.last() == w);
                    if x == w as int {
                        assert(ins@.contains(w));
                        if before_ins.contains(w) {
                            assert(before.wires[x].components@.last() == k);
                            assert(before.wires[x].components@.contains(k));
                        } else {
                            if old(self).wires[x].components@.contains(k) {
                                let m = choose|m: int|
                                    0 <= m < old(self).wires[x].components@.len() && old(self).wires[x].components@[m]
                                        == k;
                                assert(old(self).wires[x].components@[m] < old(self).ports.len());
                            }
                        }
                    } else {
                        assert(self.wires[x] == before.wires[x]);
                        if ins@.contains(x as usize) {
                            let m = choose|m: int| 0 <= m < ins@.len() && ins@[m] == x as usize;
                            assert(before_ins[m] == x as usize);
                        }
                        if before_ins.contains(x as usize) {
                            let m = choose|m: int| 0 <= m < before_ins.len() && before_ins[m] == x as usize;
                            assert(ins@[m] == x as usize);
                        }
                    }
                }
            }
            i += 1;
        }
        proof {
            assert(indices(inputs@).take(inputs@.len() as int) =~= indices(inputs@));
        }
        let ghost read = *self;
        let mut j: usize = 0;
        while j < outputs.len()
            invariant
                0 <= j <= outputs@.len(),
                old(self).wf(),
                self.ports == old(self).ports,
                self.components == old(self).components,
                self.wires.len() == old(self).wires.len(),
                forall|x: int|
                    0 <= x < outputs@.len() ==> (#[trigger] outputs@[x]).index() == NULL_INDEX || 0
                        <= outputs@[x].index() < old(self).num_wires(),
                old(self).num_pins() + outputs@.len() <= usize::MAX,
                self.pins == old(self).pins,
                outs@.len() == j,
                forall|x: int|
                    0 <= x < j ==> #[trigger] outs@[x] == pin_for(
                        outputs@,
                        x,
                        old(self).num_slots(outputs@[x].index()),
                    ),
                forall|w: int|
                    0 <= w < self.wires.len() ==> (#[trigger] self.wires[w]).components
                        == read.wires[w].components,
                forall|w: int|
                    0 <= w < self.wires.len() ==> (#[trigger] self.wires[w]).num_inputs == old(self).wires[w].num_inputs
                        + occurrences(outputs@, w, j as int),
            decreases outputs@.len() - j,
        {
            let output = outputs[j];
            let ghost before = *self;
            proof {
                if output.0 != NULL_INDEX {
                    lemma_occurrences(outputs@, output.0 as int, 0, j as int);
                    assert(outputs@[j as int].index() == output.0);
                    assert(old(self).wires[output.0 as int].num_inputs <= old(self).pins@);
                    assert(old(self).num_slots(output.0 as int) + outputs@.len() <= usize::MAX);
                    assert(self.wires[output.0 as int].num_inputs == old(self).wires[output.0 as int].num_inputs
                        + occurrences(outputs@, output.0 as int, j as int));
                }
            }
            let input_id: usize = if output.0 == NULL_INDEX {
                0
            } else {
                self.wires[output.0].add_input()
            };
            outs.push(Pin { wire_id: output.0, input_id });
            proof {
                assert forall|w: int| 0 <= w < self.wires.len() implies (
                #[trigger] self.wires[w]).components == read.wires[w].components && self.wires[w].num_inputs
                    == old(self).wires[w].num_inputs + occurrences(outputs@, w, j as int + 1) by {
                    if output.0 == NULL_INDEX || w != output.0 as int {
                        assert(self.wires[w] == before.wires[w]);
                    }
                }
            }
            j += 1;
        }
        self.ports.push(Ports { inputs: ins, outputs: outs });
        self.components.push(ComponentWrapper { iteration: NULL_INDEX, component_impl: component });
        proof {
            self.pins@ = self.pins@ + outputs@.len();
            old(self).lemma_added(*self, read, component, inputs@, outputs@);
        }
        result
    }

    /// The builder `after` is the builder `self` with one component added:
    /// the invariant carries over.
    proof fn lemma_added(
        &self,
        after: CircuitBuilder,
        read: CircuitBuilder,
        component: ComponentKind,
        inputs: Seq<WireRef>,
        outputs: Seq<WireRef>,
    )
        requires
            self.wf(),
            component.accepts(inputs.len(), outputs.len()),
            forall|i: int| 0 <= i < inputs.len() ==> 0 <= (#[trigger] inputs[i]).index() < self.num_wires(),
            forall|j: int|
                0 <= j < outputs.len() ==> (#[trigger] outputs[j]).index() == NULL_INDEX || 0
                    <= outputs[j].index() < self.num_wires(),
            self.num_pins() + outputs.len() <= usize::MAX,
            after.pins@ == self.pins@ + outputs.len(),
            after.wires.len() == self.wires.len(),
            after.ports@ == self.ports@.push(after.ports@.last()),
            after.components@ == self.components@.push(
                ComponentWrapper { iteration: NULL_INDEX, component_impl: component },
            ),
            after.ports@.last().inputs@ == indices(inputs),
            after.ports@.last().outputs@.len() == outputs.len(),
            forall|x: int|
                0 <= x < outputs.len() ==> #[trigger] after.ports@.last().outputs@[x] == pin_for(
                    outputs,
                    x,
                    self.num_slots(outputs[x].index()),
                ),
            forall|w: int|
                0 <= w < self.wires.len() ==> (#[trigger] after.wires[w]).components@ == (if indices(
                    inputs,
                ).contains(w as usize) {
                    self.wires[w].components@.push(self.components.len() as usize)
                } else {
                    self.wires[w].components@
                }),
            forall|w: int|
                0 <= w < self.wires.len() ==> (#[trigger] after.wires[w]).num_inputs
                    == self.wires[w].num_inputs + occurrences(outputs, w, outputs.len() as int),
        ensures
            after.wf(),
            after.added(*self, component, inputs, outputs),
    {
        let k = self.components.len() as int;
        assert(after.ports.len() == k + 1);
        assert(after.components.len() == k + 1);
        assert forall|x: int| 0 <= x < k implies after.ports[x] == self.ports[x]
            && after.components[x] == self.components[x] by {
            assert(after.ports@[x] == self.ports@.push(after.ports@.last())[x]);
            assert(after.components@[x] == self.components@.push(
                ComponentWrapper { iteration: NULL_INDEX, component_impl: component },
            )[x]);
        }
        assert(after.components[k].component_impl == component) by {
            assert(after.components@[k] == self.components@.push(
                ComponentWrapper { iteration: NULL_INDEX, component_impl: component },
            )[k]);
        }
        assert(after.ports[k] == after.ports@.last());
        assert forall|w: int| 0 <= w < self.wires.len() implies self.wires[w].num_inputs
            <= after.wires[w].num_inputs && (#[trigger] after.wires[w]).num_inputs <= after.pins@ by {
            lemma_occurrences(outputs, w, 0, outputs.len() as int);
            assert(self.wires[w].num_inputs <= self.pins@);
        }
        assert(after.ports_wf()) by {
            assert forall|x: int, i: int|
                0 <= x < after.ports.len() && 0 <= i < after.ports[x].inputs@.len() implies #[trigger] after.ports[x].inputs@[i]
                < after.wires.len() by {
                if x == k {
                    assert(inputs[i].index() < self.num_wires());
                } else {
                    assert(self.ports[x].inputs@[i] < self.wires.len());
                }
            }
            assert forall|x: int, j: int|
                0 <= x < after.ports.len() && 0 <= j < after.ports[x].outputs@.len() && (
                #[trigger] after.ports[x].outputs@[j]).connected() implies {
                &&& after.ports[x].outputs@[j].wire_id < after.wires.len()
                &&& after.ports[x].outputs@[j].input_id
                    < after.wires[after.ports[x].outputs@[j].wire_id as int].num_inputs
            } by {
                if x == k {
                    let w = outputs[j].index();
                    assert(after.ports[k].outputs@[j] == pin_for(outputs, j, self.num_slots(w)));
                    lemma_occurrences(outputs, w, j + 1, outputs.len() as int);
                    lemma_occurrences(outputs, w, 0, j);
                } else {
                    assert(self.ports[x].outputs@[j].connected());
                }
            }
            assert forall|k1: int, j1: int, k2: int, j2: int|
                0 <= k1 < after.ports.len() && 0 <= j1 < after.ports[k1].outputs@.len() && 0 <= k2
                    < after.ports.len() && 0 <= j2 < after.ports[k2].outputs@.len() && (k1 != k2
                    || j1 != j2) && (
                #[trigger] after.ports[k1].outputs@[j1]).connected() implies after.ports[k1].outputs@[j1]
                != #[trigger] after.ports[k2].outputs@[j2] by {
                let p1 = after.ports[k1].outputs@[j1];
                let p2 = after.ports[k2].outputs@[j2];
                if p2.connected() && p1.wire_id == p2.wire_id {
                    let w = p1.wire_id as int;
                    if k1 == k && k2 == k {
                        assert(p1 == pin_for(outputs, j1, self.num_slots(w)));
                        assert(p2 == pin_for(outputs, j2, self.num_slots(w)));
                        lemma_occurrences(outputs, w, 0, outputs.len() as int);
                        if j1 < j2 {
                            lemma_occurrences(outputs, w, j1 + 1, j2);
                        } else {
                            lemma_occurrences(outputs, w, j2 + 1, j1);
                        }
                        lemma_occurrences(outputs, w, j1, outputs.len() as int);
                        lemma_occurrences(outputs, w, j2, outputs.len() as int);
                    } else if k1 == k {
                        assert(p1 == pin_for(outputs, j1, self.num_slots(w)));
                        assert(self.ports[k2].outputs@[j2].connected());
                        lemma_occurrences(outputs, w, j1, outputs.len() as int);
                    } else if k2 == k {
                        assert(p2 == pin_for(outputs, j2, self.num_slots(w)));
                        assert(self.ports[k1].outputs@[j1].connected());
                        lemma_occurrences(outputs, w, j2, outputs.len() as int);
                    } else {
                        assert(self.ports[k1].outputs@[j1] != self.ports[k2].outputs@[j2]);
                    }
                }
            }
            assert forall|x: int| 0 <= x < after.components.len() implies (
            #[trigger] after.components[x]).component_impl.accepts(
                after.ports[x].inputs@.len(),
                after.ports[x].outputs@.len(),
            ) && after.components[x].iteration == NULL_INDEX by {
                if x < k {
                    assert(self.components[x].component_impl.accepts(
                        self.ports[x].inputs@.len(),
                        self.ports[x].outputs@.len(),
                    ));
                } else {
                    assert(after.components@[k] == self.components@.push(
                        ComponentWrapper { iteration: NULL_INDEX, component_impl: component },
                    )[k]);
                }
            }
        }
        assert(after.readers_wf()) by {
            assert forall|w: int, i: int, j: int|
                0 <= w < after.wires.len() && 0 <= i < j < after.wires[w].components@.len() implies #[trigger] after.wires[w].components@[i]
                < #[trigger] after.wires[w].components@[j] by {
                if j < self.wires[w].components@.len() {
                    assert(self.wires[w].components@[i] < self.wires[w].components@[j]);
                } else {
                    assert(self.wires[w].components@[i] < self.ports.len());
                }
            }
            assert forall|w: int, i: int|
                0 <= w < after.wires.len() && 0 <= i < after.wires[w].components@.len() implies {
                &&& (#[trigger] after.wires[w].components@[i]) < after.ports.len()
                &&& after.ports[after.wires[w].components@[i] as int].inputs@.contains(w as usize)
            } by {
                if i < self.wires[w].components@.len() {
                    assert(self.wires[w].components@[i] < self.ports.len());
                    assert(self.ports[self.wires[w].components@[i] as int].inputs@.contains(
                        w as usize,
                    ));
                }
            }
            assert forall|x: int, i: int|
                0 <= x < after.ports.len() && 0 <= i < after.ports[x].inputs@.len() implies after.wires[(
            #[trigger] after.ports[x].inputs@[i]) as int].components@.contains(x as usize) by {
                let w = after.ports[x].inputs@[i] as int;
                if x == k {
                    assert(inputs[i].index() < self.num_wires());
                    assert(indices(inputs)[i] == w as usize);
                    assert(indices(inputs).contains(w as usize));
                    assert(after.wires[w].components@.last() == k as usize);
                } else {
                    assert(self.ports[x].inputs@[i] < self.wires.len());
                    assert(self.wires[w].components@.contains(x as usize));
                    let m = choose|m: int|
                        0 <= m < self.wires[w].components@.len() && self.wires[w].components@[m]
                            == x as usize;
                    assert(after.wires[w].components@[m] == x as usize);
                }
            }
        }
    }
}

impl CircuitBuilder {
    /// The voltage that wire `w` carries when the circuit is built: `Low`
    /// with a driver, `Floating` without.
    pub open spec fn initial_voltage(&self, w: int) -> Voltage {
        if self.num_slots(w) > 0 {
            Voltage::Low
        } else {
            Voltage::Floating
        }
    }

    /// The voltages on the inputs of component `k` when the circuit is built.
    pub open spec fn initial_inputs(&self, k: int) -> Seq<Voltage> {
        Seq::new(
            self.input_wires(k).len(),
            |i: int| self.initial_voltage(self.input_wires(k)[i] as int),
        )
    }

    /// What the slots behind the outputs of component `k` hold before the
    /// component is updated for the first time: a strong `Low`.
    pub open spec fn initial_outputs(&self, k: int) -> Seq<Option<VoltageInput>> {
        Seq::new(
            self.output_pins(k).len(),
            |j: int|
                if self.output_pins(k)[j].connected() {
                    Some(VoltageInput::strong(Voltage::Low))
                } else {
                    None
                },
        )
    }

    /// Whether component `k` of `circuit` is component `k` of the builder
    /// after its first update, and drives what that update drives. Of a
    /// component from outside the library nothing is said.
    pub open spec fn component_built(&self, circuit: Circuit, k: int) -> bool {
        !(self.component(k) is Custom) ==> {
            &&& circuit.component(k) == self.component(k).updated(self.initial_inputs(k))
            &&& circuit.net().outputs_of(k) == overlay(
                self.initial_outputs(k),
                circuit.component(k).driven(self.initial_inputs(k), self.output_pins(k).len()),
            )
        }
    }

    /// Whether no component is from outside the library.
    pub open spec fn library_only(&self) -> bool {
        forall|k: int| 0 <= k < self.num_components() ==> !(#[trigger] self.component(k) is Custom)
    }

    /// Whether `circuit` is what `build` makes of this builder, before any
    /// propagation: the same wires and ports, every wire at its initial
    /// voltage, the readers of every wire interned as its set, and every
    /// component updated once.
    pub open spec fn builds(&self, circuit: Circuit) -> bool {
        &&& circuit.num_wires() == self.num_wires()
        &&& circuit.num_components() == self.num_components()
        &&& circuit.iterations() == 0
        &&& circuit.ticks() == 0
        &&& circuit.dirty_sets().len() == 0
        &&& forall|k: int|
            0 <= k < self.num_components() ==> #[trigger] circuit.net().input_wires(k)
                == self.input_wires(k) && circuit.net().output_pins(k) == self.output_pins(k)
        &&& forall|k: int, n: nat, m: nat|
            0 <= k < self.num_components() ==> #[trigger] circuit.component(k).accepts(n, m)
                == self.component(k).accepts(n, m)
        &&& forall|k: int|
            0 <= k < self.num_components() ==> #[trigger] self.component(k).same_make(
                circuit.component(k),
            )
        &&& forall|w: int|
            0 <= w < self.num_wires() ==> (#[trigger] circuit.net().slots(w)).len()
                == self.num_slots(w)
        &&& forall|w: int|
            0 <= w < self.num_wires() ==> #[trigger] circuit.net().voltage(w) == (if self.num_slots(
                w,
            ) > 0 {
                Voltage::Low
            } else {
                Voltage::Floating
            })
        &&& forall|w: int|
            0 <= w < self.num_wires() ==> (#[trigger] circuit.net().set_id(w) == NULL_INDEX
                <==> self.readers(w).len() == 0)
        &&& forall|w: int|
            0 <= w < self.num_wires() && circuit.net().set_id(w) != NULL_INDEX
                ==> circuit.wiring().sets[(#[trigger] circuit.net().set_id(w)) as int]
                == self.readers(w)
        &&& forall|k: int| 0 <= k < self.num_components() ==> circuit.settled(k)
        &&& forall|k: int|
            0 <= k < self.num_components() ==> #[trigger] self.component_built(circuit, k)
        &&& forall|w: int, s: int|
            0 <= w < self.num_wires() && 0 <= s < self.num_slots(w) && !circuit.net().pinned(w, s)
                ==> #[trigger] circuit.net().slots(w)[s] == VoltageInput::strong(Voltage::Low)
        &&& self.library_only() ==> forall|w: int|
            0 <= w < self.num_wires() ==> (#[trigger] circuit.unstable(w) <==> circuit.net().slots(
                w,
            ) != Seq::new(self.num_slots(w), |s: int| VoltageInput::strong(Voltage::Low)))
    }

    /// Freezes the wiring and makes the circuit: interns the readers of each
    /// wire as a set of components, puts every wire at `Low` if it has a
    /// driver and lets it float otherwise, and updates every component once.
    /// The circuit is left for `propagate` to settle.
    pub fn build(self) -> (circuit: Circuit)
        requires
            self.wf(),
        ensures
            circuit.wf(),
            circuit.coherent(),
            self.builds(circuit),
    {
        let ghost builder = self;
        let CircuitBuilder { wires: mut prepared, ports, components, pins: _ } = self;
        let n: usize = prepared.len();
        let mut component_sets: Vec<ComponentSet> = Vec::new();
        let mut wires: Vec<Wire> = Vec::new();
        let ghost mut origin: Seq<int> = Seq::empty();
        let mut w: usize = 0;
        while w < n
            invariant
                0 <= w <= n == prepared.len() == builder.wires.len(),
                builder.wf(),
                wires.len() == w,
                component_sets.len() <= w,
                forall|x: int| w <= x < n ==> prepared[x] == builder.wires[x],
                forall|x: int|
                    0 <= x < w ==> {
                        let wire = #[trigger] wires[x];
                        let readers = builder.wires[x].components@;
                        &&& wire.next == NULL_INDEX
                        &&& wire.inputs@ == Seq::new(
                            builder.wires[x].num_inputs as nat,
                            |i: int| VoltageInput::strong(Voltage::Low),
                        )
                        &&& wire.voltage == (if builder.wires[x].num_inputs > 0 {
                            Voltage::Low
                        } else {
                            Voltage::Floating
                        })
                        &&& (wire.invalidation_id == NULL_INDEX <==> readers.len() == 0)
                        &&& wire.invalidation_id != NULL_INDEX ==> wire.invalidation_id
                            < component_sets.len()
                            && component_sets[wire.invalidation_id as int].components@ == readers
                    },
                origin.len() == component_sets.len(),
                forall|s: int|
                    0 <= s < component_sets.len() ==> {
                        &&& (#[trigger] component_sets[s]).next == NULL_INDEX
                        &&& 0 <= origin[s] < w
                        &&& component_sets[s].components@ == builder.wires[origin[s]].components@
                        &&& component_sets[s].components@.len() > 0
                    },
                forall|s: int, t: int|
                    0 <= s < t < component_sets.len() ==> component_sets[s].components@
                        != component_sets[t].components@,
            decreases n - w,
        {
            let mut list = IdVec::new();
            let ghost sets_before = component_sets;
            core::mem::swap(&mut list, &mut prepared[w].components);
            let num_inputs: usize = prepared[w].num_inputs;
            let invalidation_id: usize = if list.len() == 0 {
                NULL_INDEX
            } else {
                intern(&mut component_sets, list)
            };
            wires.push(
                Wire {
                    voltage: if num_inputs > 0 {
                        Voltage::Low
                    } else {
                        Voltage::Floating
                    },
                    inputs: SlotVec::filled(VoltageInput::strong(Voltage::Low), num_inputs),
                    invalidation_id,
                    next: NULL_INDEX,
                },
            );
            proof {
                if component_sets.len() > sets_before.len() {
                    origin = origin.push(w as int);
                }
                assert forall|s: int| 0 <= s < component_sets.len() implies {
                    &&& (#[trigger] component_sets[s]).next == NULL_INDEX
                    &&& 0 <= origin[s] < w + 1
                    &&& component_sets[s].components@ == builder.wires[origin[s]].components@
                    &&& component_sets[s].components@.len() > 0
                } by {
                    if s < sets_before.len() {
                        assert(component_sets[s] == sets_before[s]);
                    }
                }
                assert forall|x: int| 0 <= x < w + 1 implies {
                    let wire = #[trigger] wires[x];
                    let readers = builder.wires[x].components@;
                    &&& wire.next == NULL_INDEX
                    &&& wire.inputs@ == Seq::new(
                        builder.wires[x].num_inputs as nat,
                        |i: int| VoltageInput::strong(Voltage::Low),
                    )
                    &&& wire.voltage == (if builder.wires[x].num_inputs > 0 {
                        Voltage::Low
                    } else {
                        Voltage::Floating
                    })
                    &&& (wire.invalidation_id == NULL_INDEX <==> readers.len() == 0)
                    &&& wire.invalidation_id != NULL_INDEX ==> wire.invalidation_id
                        < component_sets.len()
                        && component_sets[wire.invalidation_id as int].components@ == readers
                } by {
                    if x < w {
                        let id = wires[x].invalidation_id;
                        if id != NULL_INDEX {
                            assert(component_sets[id as int] == sets_before[id as int]);
                        }
                    }
                }
            }
            w += 1;
        }
        let mut circuit = Circuit {
            iteration_count: 0,
            tick_count: 0,
            first_component_set: TAIL_INDEX,
            net: ComponentInterface {
                wires,
                first_wire: TAIL_INDEX,
                ports,
                current: 0,
                dirty: Ghost(Seq::empty()),
            },
            component_sets,
            components,
            dirty_sets: Ghost(Seq::empty()),
        };
        proof {
            builder.lemma_assembled(circuit, origin);
        }
        let ghost assembled = circuit;
        circuit.init();
        proof {
            assert forall|k: int| 0 <= k < circuit.num_components() implies circuit.net().input_wires(
                k,
            ) == builder.input_wires(k) && circuit.net().output_pins(k) == builder.output_pins(k) by {
                assert(circuit.wiring().input_wires[k] == assembled.wiring().input_wires[k]);
                assert(circuit.wiring().output_pins[k] == assembled.wiring().output_pins[k]);
            }
            assert forall|w: int| 0 <= w < builder.num_wires() implies (
            #[trigger] circuit.net().slots(w)).len() == builder.num_slots(w) by {
                assert(circuit.wiring().slot_counts[w] == assembled.wiring().slot_counts[w]);
                assert(circuit.wiring().slot_counts[w] == circuit.net.wires[w].inputs@.len());
                assert(assembled.wiring().slot_counts[w] == assembled.net.wires[w].inputs@.len());
            }
            assert forall|w: int| 0 <= w < builder.num_wires() implies #[trigger] circuit.net().set_id(
                w,
            ) == assembled.net.wires[w].invalidation_id by {
                assert(circuit.wiring().set_ids[w] == assembled.wiring().set_ids[w]);
                assert(circuit.wiring().set_ids[w] == circuit.net.wires[w].invalidation_id);
                assert(assembled.wiring().set_ids[w] == assembled.net.wires[w].invalidation_id);
            }
            assert forall|w: int|
                0 <= w < builder.num_wires() && circuit.net().set_id(w)
                    != NULL_INDEX implies circuit.wiring().sets[(
            #[trigger] circuit.net().set_id(w)) as int] == builder.readers(w) by {
                let id = assembled.net.wires[w].invalidation_id as int;
                assert(circuit.wiring().sets[id] == assembled.wiring().sets[id]);
                assert(assembled.wiring().sets[id] == assembled.component_sets[id].components@);
            }
            assert(circuit.num_components() == builder.num_components()) by {
                assert(circuit.wiring().input_wires.len() == assembled.wiring().input_wires.len());
            }
            assert(circuit.accepting());
            assert forall|k: int, n: nat, m: nat|
                0 <= k < builder.num_components() implies #[trigger] circuit.component(k).accepts(
                n,
                m,
            ) == builder.component(k).accepts(n, m) by {
                assert(circuit.component(k).accepts(n, m) == assembled.component(k).accepts(n, m));
            }
            assert forall|k: int| 0 <= k < circuit.num_components() implies #[trigger] circuit.settled(
                k,
            ) || circuit.pending(k) by {}
            assert forall|k: int| 0 <= k < builder.num_components() implies #[trigger] builder.component(
                k,
            ).same_make(circuit.component(k)) by {
                assert(assembled.component(k).same_make(circuit.component(k)));
            }
            builder.lemma_swept(assembled, circuit);
        }
        circuit
    }

    /// The first update of every component of the circuit `assembled` that
    /// `build` has put together gives what `builds` says of components and
    /// slots.
    proof fn lemma_swept(&self, assembled: Circuit, circuit: Circuit)
        requires
            self.wf(),
            assembled.core_wf(),
            assembled.net.ports == self.ports,
            assembled.components == self.components,
            assembled.net.wires.len() == self.wires.len(),
            assembled.net.dirty@ == Seq::<usize>::empty(),
            forall|x: int|
                0 <= x < self.wires.len() ==> {
                    let wire = #[trigger] assembled.net.wires[x];
                    &&& wire.inputs@ == Seq::new(
                        self.wires[x].num_inputs as nat,
                        |i: int| VoltageInput::strong(Voltage::Low),
                    )
                    &&& wire.voltage == (if self.wires[x].num_inputs > 0 {
                        Voltage::Low
                    } else {
                        Voltage::Floating
                    })
                },
            circuit.core_wf(),
            circuit.wiring() == assembled.wiring(),
            circuit.sweep(&assembled, assembled.components.len() as int, None),
        ensures
            forall|k: int|
                0 <= k < self.num_components() ==> #[trigger] self.component_built(circuit, k),
            forall|w: int, s: int|
                0 <= w < self.num_wires() && 0 <= s < self.num_slots(w) && !circuit.net().pinned(
                    w,
                    s,
                ) ==> #[trigger] circuit.net().slots(w)[s] == VoltageInput::strong(Voltage::Low),
            self.library_only() ==> forall|w: int|
                0 <= w < self.num_wires() ==> (#[trigger] circuit.unstable(w)
                    <==> circuit.net().slots(w) != Seq::new(
                    self.num_slots(w),
                    |s: int| VoltageInput::strong(Voltage::Low),
                )),
    {
        assert forall|k: int| 0 <= k < self.num_components() implies #[trigger] self.component_built(
            circuit,
            k,
        ) by {
            if !(self.component(k) is Custom) {
                assert(!(assembled.components[k].component_impl is Custom));
                assert(circuit.swept_one(&assembled, k, None));
                assert(assembled.net.inputs_of(k) =~= self.initial_inputs(k)) by {
                    assert forall|i: int| 0 <= i < self.ports[k].inputs@.len() implies assembled.net.voltage(
                        self.ports[k].inputs@[i] as int,
                    ) == self.initial_voltage(self.ports[k].inputs@[i] as int) by {
                        assert(self.ports[k].inputs@[i] < self.wires.len());
                    }
                }
                assert(assembled.net.outputs_of(k) =~= self.initial_outputs(k)) by {
                    assert forall|j: int| 0 <= j < self.ports[k].outputs@.len() implies assembled.net.slot_at(
                        self.ports[k].outputs@[j],
                    ) == self.initial_outputs(k)[j] by {
                        let pin = self.ports[k].outputs@[j];
                        if pin.connected() {
                            assert(pin.wire_id < self.wires.len());
                            assert(pin.input_id < self.wires[pin.wire_id as int].num_inputs);
                        }
                    }
                }
            }
        }
        assert(circuit.net.wires.len() == assembled.net.wires.len());
        assert forall|w: int| 0 <= w < self.wires.len() implies circuit.net.wires[w].inputs@.len()
            == assembled.net.wires[w].inputs@.len() by {
            assert(circuit.wiring().slot_counts[w] == assembled.wiring().slot_counts[w]);
            assert(circuit.wiring().slot_counts[w] == circuit.net.wires[w].inputs@.len());
            assert(assembled.wiring().slot_counts[w] == assembled.net.wires[w].inputs@.len());
        }
        assert forall|w: int, s: int|
            0 <= w < self.num_wires() && 0 <= s < self.num_slots(w) && !circuit.net().pinned(
                w,
                s,
            ) implies #[trigger] circuit.net().slots(w)[s] == VoltageInput::strong(
            Voltage::Low,
        ) by {
            if assembled.net.pinned(w, s) {
                let (k, j) = choose|k: int, j: int|
                    0 <= k < assembled.net.num_components() && 0 <= j < assembled.net.output_pins(
                        k,
                    ).len() && #[trigger] assembled.net.output_pins(k)[j] == (Pin {
                        wire_id: w as usize,
                        input_id: s as usize,
                    });
                assert(circuit.wiring().output_pins[k] == assembled.wiring().output_pins[k]);
                assert(circuit.net.output_pins(k)[j] == (Pin {
                    wire_id: w as usize,
                    input_id: s as usize,
                }));
            }
            assert(circuit.net.wires[w].inputs@[s] == assembled.net.wires[w].inputs@[s]);
        }
        if self.library_only() {
            assert forall|k: int| 0 <= k < assembled.num_components() implies !(
            #[trigger] assembled.component(k) is Custom) by {
                assert(!(self.component(k) is Custom));
            }
            assert forall|w: int| 0 <= w < self.num_wires() implies (#[trigger] circuit.unstable(w)
                <==> circuit.net().slots(w) != Seq::new(
                self.num_slots(w),
                |s: int| VoltageInput::strong(Voltage::Low),
            )) by {
                assert(assembled.net.wires[w].next == NULL_INDEX) by {
                    assert(!assembled.net.dirty@.contains(w as usize));
                }
                assert(circuit.net.wires[w].next != NULL_INDEX <==> assembled.net.wires[w].next
                    != NULL_INDEX || circuit.net.wires[w].inputs@
                    != assembled.net.wires[w].inputs@);
            }
        }
    }

    /// The wires, ports and sets that `build` has put together make a
    /// well-formed circuit.
    proof fn lemma_assembled(&self, circuit: Circuit, origin: Seq<int>)
        requires
            self.wf(),
            circuit.iteration_count == 0,
            circuit.first_component_set == TAIL_INDEX,
            circuit.net.first_wire == TAIL_INDEX,
            circuit.net.dirty@ == Seq::<usize>::empty(),
            circuit.dirty_sets@ == Seq::<usize>::empty(),
            circuit.net.ports == self.ports,
            circuit.components == self.components,
            circuit.net.wires.len() == self.wires.len(),
            circuit.component_sets.len() <= self.wires.len(),
            forall|x: int|
                0 <= x < self.wires.len() ==> {
                    let wire = #[trigger] circuit.net.wires[x];
                    let readers = self.wires[x].components@;
                    &&& wire.next == NULL_INDEX
                    &&& wire.inputs@ == Seq::new(
                        self.wires[x].num_inputs as nat,
                        |i: int| VoltageInput::strong(Voltage::Low),
                    )
                    &&& wire.voltage == (if self.wires[x].num_inputs > 0 {
                        Voltage::Low
                    } else {
                        Voltage::Floating
                    })
                    &&& (wire.invalidation_id == NULL_INDEX <==> readers.len() == 0)
                    &&& wire.invalidation_id != NULL_INDEX ==> wire.invalidation_id
                        < circuit.component_sets.len()
                        && circuit.component_sets[wire.invalidation_id as int].components@
                        == readers
                },
            origin.len() == circuit.component_sets.len(),
            forall|s: int|
                0 <= s < circuit.component_sets.len() ==> {
                    &&& (#[trigger] circuit.component_sets[s]).next == NULL_INDEX
                    &&& 0 <= origin[s] < self.wires.len()
                    &&& circuit.component_sets[s].components@ == self.wires[origin[s]].components@
                    &&& circuit.component_sets[s].components@.len() > 0
                },
            forall|s: int, t: int|
                0 <= s < t < circuit.component_sets.len() ==> circuit.component_sets[s].components@
                    != circuit.component_sets[t].components@,
        ensures
            circuit.core_wf(),
    {
        assert(circuit.net.links_wf());
        assert(circuit.net.resolved()) by {
            assert forall|x: int|
                0 <= x < circuit.net.wires.len() && (#[trigger] circuit.net.wires[x]).next
                    == NULL_INDEX implies circuit.net.wires[x].voltage == resolution(
                circuit.net.wires[x].inputs@,
            ) by {
                lemma_resolution_initial(self.wires[x].num_inputs as nat);
            }
        }
        assert(circuit.net.ports_wf()) by {
            assert forall|k: int, j: int|
                0 <= k < circuit.net.ports.len() && 0 <= j < circuit.net.ports[k].outputs@.len()
                    && (#[trigger] circuit.net.ports[k].outputs@[j]).connected() implies {
                &&& circuit.net.ports[k].outputs@[j].wire_id < circuit.net.wires.len()
                &&& circuit.net.ports[k].outputs@[j].input_id
                    < circuit.net.wires[circuit.net.ports[k].outputs@[j].wire_id as int].inputs@.len()
            } by {
                let x = self.ports[k].outputs@[j].wire_id as int;
                assert(self.ports[k].outputs@[j].input_id < self.wires[x].num_inputs);
                assert(circuit.net.wires[x].inputs@.len() == self.wires[x].num_inputs);
            }
        }
        let t = circuit.wiring();
        assert(t.wf()) by {
            assert forall|w: int| 0 <= w < t.set_ids.len() implies #[trigger] t.set_ids[w]
                == NULL_INDEX || t.set_ids[w] < t.sets.len() by {
                assert(t.set_ids[w] == circuit.net.wires[w].invalidation_id);
            }
            assert forall|s: int| 0 <= s < t.sets.len() implies (#[trigger] t.sets[s]).len() > 0
                && (forall|i: int| 0 <= i < t.sets[s].len() ==> #[trigger] t.sets[s][i]
                < t.input_wires.len()) && (forall|i: int, j: int|
                0 <= i < j < t.sets[s].len() ==> #[trigger] t.sets[s][i]
                    < #[trigger] t.sets[s][j]) by {
                assert(circuit.component_sets[s].next == NULL_INDEX);
                let x = origin[s];
                assert(t.sets[s] == self.wires[x].components@);
                assert forall|i: int| 0 <= i < t.sets[s].len() implies #[trigger] t.sets[s][i]
                    < t.input_wires.len() by {
                    assert(self.wires[x].components@[i] < self.ports.len());
                }
                assert forall|i: int, j: int| 0 <= i < j < t.sets[s].len() implies #[trigger] t.sets[s][i]
                    < #[trigger] t.sets[s][j] by {
                    assert(self.wires[x].components@[i] < self.wires[x].components@[j]);
                }
            }
            assert forall|s: int, u: int| 0 <= s < u < t.sets.len() implies #[trigger] t.sets[s]
                != #[trigger] t.sets[u] by {
                assert(circuit.component_sets[s].components@
                    != circuit.component_sets[u].components@);
            }
            assert forall|k: int, i: int|
                0 <= k < t.input_wires.len() && 0 <= i < t.input_wires[k].len() implies {
                let w = #[trigger] t.input_wires[k][i];
                &&& w < t.set_ids.len()
                &&& t.set_ids[w as int] != NULL_INDEX
                &&& t.sets[t.set_ids[w as int] as int].contains(k as usize)
            } by {
                let w = self.ports[k].inputs@[i];
                assert(w < self.wires.len());
                assert(self.wires[w as int].components@.contains(k as usize));
                let wire = circuit.net.wires[w as int];
                assert(wire.invalidation_id != NULL_INDEX);
                assert(t.set_ids[w as int] == wire.invalidation_id);
            }
            assert forall|w: int, i: int|
                0 <= w < t.set_ids.len() && t.set_ids[w] != NULL_INDEX && 0 <= i
                    < t.sets[t.set_ids[w] as int].len() implies t.reads(
                (#[trigger] t.sets[t.set_ids[w] as int][i]) as int,
                w,
            ) by {
                let wire = circuit.net.wires[w];
                assert(t.set_ids[w] == wire.invalidation_id);
                assert(t.sets[t.set_ids[w] as int] == self.wires[w].components@);
                let k = self.wires[w].components@[i];
                assert(k < self.ports.len());
                assert(self.ports[k as int].inputs@.contains(w as usize));
                assert(t.input_wires[k as int] == self.ports[k as int].inputs@);
            }
        }
        assert(circuit.set_links_wf());
        assert(circuit.accepting()) by {
            assert forall|k: int| 0 <= k < circuit.components.len() implies (
            #[trigger] circuit.components[k]).component_impl.accepts(
                circuit.net.ports[k].inputs@.len(),
                circuit.net.ports[k].outputs@.len(),
            ) by {
                assert(self.components[k].component_impl.accepts(
                    self.ports[k].inputs@.len(),
                    self.ports[k].outputs@.len(),
                ));
            }
        }
    }
}

impl CircuitBuilder {
    /// Determinism of `build`: two circuits built from one builder of
    /// library components cannot be told apart.
    pub proof fn lemma_built_deterministic(&self, first: Circuit, second: Circuit)
        requires
            self.library_only(),
            first.wf(),
            second.wf(),
            self.builds(first),
            self.builds(second),
        ensures
            first.same_state(&second),
            first.library_only(),
    {
        assert forall|k: int| 0 <= k < self.num_components() implies #[trigger] first.component(k)
            == second.component(k) && !(first.component(k) is Custom) by {
            assert(!(self.component(k) is Custom));
            assert(self.component_built(first, k));
            assert(self.component_built(second, k));
        }
        assert forall|k: int| 0 <= k < self.num_components() implies #[trigger] first.net().outputs_of(
            k,
        ) == second.net().outputs_of(k) by {
            assert(!(self.component(k) is Custom));
            assert(self.component_built(first, k));
            assert(self.component_built(second, k));
        }
        assert forall|k: int| 0 <= k < self.num_components() implies #[trigger] first.net().output_pins(
            k,
        ) == second.net().output_pins(k) && first.net().input_wires(k) == second.net().input_wires(
            k,
        ) by {
            assert(first.net().input_wires(k) == self.input_wires(k));
            assert(second.net().input_wires(k) == self.input_wires(k));
        }
        assert forall|w: int| 0 <= w < self.num_wires() implies (#[trigger] first.net().slots(w)).len()
            == second.net().slots(w).len() by {
            assert(second.net().slots(w).len() == self.num_slots(w));
        }
        assert forall|w: int, s: int|
            0 <= w < first.num_wires() && 0 <= s < first.net().slots(w).len()
                && !first.net().pinned(w, s) implies #[trigger] first.net().slots(w)[s]
            == second.net().slots(w)[s] by {
            assert(first.net().slots(w).len() == self.num_slots(w));
            if second.net().pinned(w, s) {
                let (k, j) = choose|k: int, j: int|
                    0 <= k < second.net().num_components() && 0 <= j < second.net().output_pins(
                        k,
                    ).len() && #[trigger] second.net().output_pins(k)[j] == (Pin {
                        wire_id: w as usize,
                        input_id: s as usize,
                    });
                assert(first.net().output_pins(k)[j] == (Pin {
                    wire_id: w as usize,
                    input_id: s as usize,
                }));
            }
            assert(first.net().slots(w)[s] == VoltageInput::strong(Voltage::Low));
            assert(second.net().slots(w)[s] == VoltageInput::strong(Voltage::Low));
        }
        first.lemma_same_slots(&second);
        assert forall|w: int| 0 <= w < first.num_wires() implies #[trigger] first.net().voltage(w)
            == second.net().voltage(w) by {
            assert(second.net().voltage(w) == self.initial_voltage(w));
        }
        assert forall|w: int| 0 <= w < first.num_wires() implies #[trigger] first.unstable(w)
            == second.unstable(w) by {
            assert(first.net().slots(w) == second.net().slots(w));
            assert(second.unstable(w) <==> second.net().slots(w) != Seq::new(
                self.num_slots(w),
                |s: int| VoltageInput::strong(Voltage::Low),
            ));
        }
    }
}

impl Default for CircuitBuilder {
    /// A builder without wires and components.
    fn default() -> (builder: Self)
        ensures
            builder.wf(),
            builder.num_wires() == 0,
            builder.num_components() == 0,
    {
        CircuitBuilder::new()
    }
}

} // verus!
