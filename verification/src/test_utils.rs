//! A bench for one component: its inputs are tied to rails, the circuit is
//! settled, and its outputs are read back as numbers.
//!
//! A voltage is written as two bits: `Low` is `(0, 0)`, `High` is `(1, 0)`,
//! `Floating` is `(0, 1)` and `Error` is `(1, 1)`. A group of `n` wires is a
//! pair of numbers, the first holding the first bit of each wire and the
//! second the second, least significant wire first.
use vstd::prelude::*;
use crate::circuit::builder::{indices, lemma_occurrences, occurrences, pin_for, CircuitBuilder};
use crate::circuit::{Circuit, Component, WireRef, NULL_INDEX, TAIL_INDEX};
use crate::inline::Pin;
use crate::voltage::{lemma_resolution_single, resolution};
use crate::components::gates::Constant;
use crate::components::kind::{AnyComponent, ComponentKind};
use crate::voltage::{Voltage, VoltageInput};

verus! {

/// The number of wires in the first `n` groups of `inputs`.
pub open spec fn input_width(inputs: Seq<(usize, u64, u64)>, n: int) -> nat
    decreases n,
{
    if n <= 0 {
        0
    } else {
        input_width(inputs, n - 1) + inputs[n - 1].0 as nat
    }
}

/// The number of wires in the first `n` groups of `outputs`.
pub open spec fn output_width(outputs: Seq<usize>, n: int) -> nat
    decreases n,
{
    if n <= 0 {
        0
    } else {
        output_width(outputs, n - 1) + outputs[n - 1] as nat
    }
}

/// Whether a bench with these groups can be built: no group is wider than
/// a number, and there are wires enough.
pub open spec fn bench_fits(inputs: Seq<(usize, u64, u64)>, outputs: Seq<usize>) -> bool {
    &&& forall|g: int| 0 <= g < inputs.len() ==> (#[trigger] inputs[g]).0 <= 64
    &&& forall|g: int| 0 <= g < outputs.len() ==> #[trigger] outputs[g] <= 64
    &&& input_width(inputs, inputs.len() as int) < TAIL_INDEX
    &&& output_width(outputs, outputs.len() as int) + 8 < TAIL_INDEX
}

/// The voltage that the two bits `a` and `b` stand for.
pub open spec fn level_of(a: bool, b: bool) -> Voltage {
    match (a, b) {
        (false, false) => Voltage::Low,
        (true, false) => Voltage::High,
        (false, true) => Voltage::Floating,
        (true, true) => Voltage::Error,
    }
}

/// The voltages that the first `n` groups of `inputs` put on the inputs of
/// the component, group after group.
pub open spec fn bench_inputs(inputs: Seq<(usize, u64, u64)>, n: int) -> Seq<Voltage>
    decreases n,
{
    if n <= 0 {
        Seq::empty()
    } else {
        bench_inputs(inputs, n - 1) + Seq::new(
            inputs[n - 1].0 as nat,
            |bit: int|
                level_of(
                    (inputs[n - 1].1 >> (bit as u64)) & 1 == 1,
                    (inputs[n - 1].2 >> (bit as u64)) & 1 == 1,
                ),
        )
    }
}

/// The number whose bit `i`, for `i` below `n`, is the first bit of
/// `levels[from + i]`, or the second if `first` is not set.
pub open spec fn packed(levels: Seq<Voltage>, from: int, n: int, first: bool) -> u64
    decreases n,
{
    if n <= 0 {
        0
    } else {
        let low = packed(levels, from, n - 1, first);
        let level = levels[from + n - 1];
        let bit = if first {
            level == Voltage::High || level == Voltage::Error
        } else {
            level == Voltage::Floating || level == Voltage::Error
        };
        if bit {
            low | (1u64 << ((n - 1) as u64))
        } else {
            low
        }
    }
}

/// The voltages `levels` on the outputs, read back group by group.
pub open spec fn read_back(outputs: Seq<usize>, levels: Seq<Voltage>) -> Seq<(u64, u64)> {
    Seq::new(
        outputs.len(),
        |g: int|
            (
                packed(levels, output_width(outputs, g) as int, outputs[g] as int, true),
                packed(levels, output_width(outputs, g) as int, outputs[g] as int, false),
            ),
    )
}

/// Whether `groups` is what a bench reads back from `component` when it
/// puts `inputs` on its inputs: there is a state of the component in which
/// every output that the component drives carries the voltage driven.
pub open spec fn reads_back(
    component: ComponentKind,
    inputs: Seq<(usize, u64, u64)>,
    outputs: Seq<usize>,
    groups: Seq<(u64, u64)>,
) -> bool {
    exists|after: ComponentKind, levels: Seq<Voltage>|
        {
            let width = output_width(outputs, outputs.len() as int);
            let driven = after.driven(bench_inputs(inputs, inputs.len() as int), width);
            &&& #[trigger] component.same_make(after)
            &&& levels.len() == width
            &&& forall|j: int|
                0 <= j < width && j < driven.len() && driven[j] is Some ==> #[trigger] levels[j]
                    == driven[j].unwrap().voltage
            &&& groups == #[trigger] read_back(outputs, levels)
        }
}

/// No prefix of the groups is wider than all of them.
proof fn lemma_widths(inputs: Seq<(usize, u64, u64)>, outputs: Seq<usize>, a: int, b: int)
    requires
        0 <= a <= inputs.len(),
        0 <= b <= outputs.len(),
    ensures
        input_width(inputs, a) <= input_width(inputs, inputs.len() as int),
        output_width(outputs, b) <= output_width(outputs, outputs.len() as int),
    decreases inputs.len() - a + outputs.len() - b,
{
    if a < inputs.len() {
        lemma_widths(inputs, outputs, a + 1, b);
    } else if b < outputs.len() {
        lemma_widths(inputs, outputs, a, b + 1);
    }
}

/// The voltage of the rail of index `w`: power, ground, nothing, conflict.
pub open spec fn rail_level(w: int) -> Voltage {
    if w == 0 {
        Voltage::High
    } else if w == 1 {
        Voltage::Low
    } else if w == 2 {
        Voltage::Floating
    } else {
        Voltage::Error
    }
}

/// Output wires that are handed out in a row are all different: none
/// occurs before itself, and each occurs once.
proof fn lemma_fresh_outputs(wires: Seq<WireRef>, w: int, n: int)
    requires
        0 <= n <= wires.len(),
        forall|i: int| 0 <= i < wires.len() ==> (#[trigger] wires[i]).index() == 4 + i,
    ensures
        occurrences(wires, w, n) == (if 4 <= w < 4 + n {
            1nat
        } else {
            0nat
        }),
    decreases n,
{
    if n > 0 {
        lemma_fresh_outputs(wires, w, n - 1);
    }
}

/// A wire with one slot carries, once resolved, the voltage in that slot.
proof fn lemma_single_slot(circuit: Circuit, w: int)
    requires
        circuit.net().slots(w).len() == 1,
        circuit.net().voltage(w) == resolution(circuit.net().slots(w)),
    ensures
        circuit.net().voltage(w) == circuit.net().slots(w)[0].voltage,
{
    lemma_resolution_single(circuit.net().slots(w)[0]);
    assert(circuit.net().slots(w) =~= seq![circuit.net().slots(w)[0]]);
}

/// A settled constant that alone drives slot 0 of wire `w` has put its
/// value on the wire.
proof fn lemma_rail(circuit: Circuit, k: int, w: int, value: VoltageInput)
    requires
        circuit.net().output_pins(k) == seq![Pin { wire_id: w as usize, input_id: 0 }],
        0 <= w < NULL_INDEX,
        circuit.settled(k),
        circuit.component(k) matches ComponentKind::Constant(c) && c.value() == value,
        circuit.net().slots(w).len() == 1,
        circuit.net().voltage(w) == resolution(circuit.net().slots(w)),
    ensures
        circuit.net().voltage(w) == value.voltage,
{
    lemma_single_slot(circuit, w);
    let outs = circuit.net().outputs_of(k);
    let driven = circuit.component(k).driven(circuit.net().inputs_of(k), 1);
    assert(outs[0] == Some(circuit.net().slots(w)[0]));
}

/// What a settled bench shows: the rails carry their levels, the inputs of
/// the component carry the levels of the rails that they are tied to, and
/// every output that the component drives carries what it is driven with.
proof fn lemma_bench(
    builder: CircuitBuilder,
    built: Circuit,
    circuit: Circuit,
    component: ComponentKind,
    input_wires: Seq<WireRef>,
    width: nat,
)
    requires
        builder.builds(built),
        built.wf(),
        circuit.wf(),
        circuit.is_stable(),
        circuit.coherent(),
        circuit.wiring() == built.wiring(),
        circuit.continues(&built),
        circuit.num_wires() == built.num_wires(),
        builder.num_wires() == 4 + width,
        builder.num_components() == 4,
        builder.output_pins(0) == seq![Pin { wire_id: 0, input_id: 0 }],
        builder.output_pins(1) == seq![Pin { wire_id: 1, input_id: 0 }],
        builder.output_pins(2) == seq![Pin { wire_id: 3, input_id: 0 }],
        builder.component(0) matches ComponentKind::Constant(c) && c.value()
            == VoltageInput::strong(Voltage::High),
        builder.component(1) matches ComponentKind::Constant(c) && c.value()
            == VoltageInput::strong(Voltage::Low),
        builder.component(2) matches ComponentKind::Constant(c) && c.value()
            == VoltageInput::strong(Voltage::Error),
        builder.component(3) == component,
        builder.input_wires(3) == indices(input_wires),
        forall|i: int| 0 <= i < input_wires.len() ==> 0 <= (#[trigger] input_wires[i]).index() < 4,
        builder.output_pins(3).len() == width,
        forall|j: int|
            0 <= j < width ==> #[trigger] builder.output_pins(3)[j] == (Pin {
                wire_id: (4 + j) as usize,
                input_id: 0,
            }),
        4 + width < NULL_INDEX,
        builder.num_slots(0) == 1,
        builder.num_slots(1) == 1,
        builder.num_slots(2) == 0,
        builder.num_slots(3) == 1,
        forall|w: int| 4 <= w < 4 + width ==> builder.num_slots(w) == 1,
    ensures
        component.same_make(circuit.component(3)),
        circuit.net().inputs_of(3) == Seq::new(
            input_wires.len(),
            |i: int| rail_level(input_wires[i].index()),
        ),
        forall|w: int|
            4 <= w < 4 + width ==> ({
                let driven = circuit.component(3).driven(circuit.net().inputs_of(3), width);
                w - 4 < driven.len() && driven[w - 4] is Some ==> #[trigger] circuit.net().voltage(
                    w,
                ) == driven[w - 4].unwrap().voltage
            }),
{
    built.lemma_wiring();
    circuit.lemma_wiring();
    circuit.lemma_stable();
    assert forall|k: int| 0 <= k < 4 implies circuit.net().input_wires(k) == builder.input_wires(k)
        && circuit.net().output_pins(k) == builder.output_pins(k) by {
        assert(circuit.wiring().input_wires[k] == built.wiring().input_wires[k]);
        assert(circuit.wiring().output_pins[k] == built.wiring().output_pins[k]);
        assert(built.net().input_wires(k) == builder.input_wires(k));
    }
    assert forall|w: int| 0 <= w < 4 + width implies circuit.net().slots(w).len()
        == builder.num_slots(w) by {
        assert(0 <= w < circuit.num_wires());
        assert(0 <= w < built.num_wires());
        assert(circuit.wiring().slot_counts[w] == circuit.net().slots(w).len());
        assert(built.wiring().slot_counts[w] == built.net().slots(w).len());
        assert(built.net().slots(w).len() == builder.num_slots(w));
    }
    assert forall|k: int| 0 <= k < 4 implies builder.component(k).same_make(circuit.component(k)) by {
        assert(builder.component(k).same_make(built.component(k)));
        assert(built.component(k).same_make(circuit.component(k)));
        ComponentKind::lemma_same_make(
            builder.component(k),
            built.component(k),
            circuit.component(k),
        );
    }
    assert(circuit.settled(0) && circuit.settled(1) && circuit.settled(2) && circuit.settled(3));
    lemma_rail(circuit, 0, 0, VoltageInput::strong(Voltage::High));
    lemma_rail(circuit, 1, 1, VoltageInput::strong(Voltage::Low));
    lemma_rail(circuit, 2, 3, VoltageInput::strong(Voltage::Error));
    assert(circuit.net().voltage(2) == Voltage::Floating) by {
        assert(circuit.net().slots(2) =~= Seq::<VoltageInput>::empty());
        lemma_resolution_single(VoltageInput::strong(Voltage::Low));
    }
    assert(circuit.net().inputs_of(3) =~= Seq::new(
        input_wires.len(),
        |i: int| rail_level(input_wires[i].index()),
    )) by {
        assert forall|i: int| 0 <= i < input_wires.len() implies circuit.net().inputs_of(3)[i]
            == rail_level(input_wires[i].index()) by {
            assert(indices(input_wires)[i] == input_wires[i].index() as usize);
            assert(0 <= input_wires[i].index() < 4);
        }
    }
    let driven = circuit.component(3).driven(circuit.net().inputs_of(3), width);
    let outs = circuit.net().outputs_of(3);
    assert forall|w: int|
        4 <= w < 4 + width && w - 4 < driven.len() && driven[w - 4] is Some implies #[trigger] circuit.net().voltage(
        w,
    ) == driven[w - 4].unwrap().voltage by {
        let j = w - 4;
        assert(circuit.net().slots(w).len() == builder.num_slots(w));
        lemma_single_slot(circuit, w);
        assert(builder.output_pins(3)[j] == (Pin { wire_id: (4 + j) as usize, input_id: 0 }));
        assert(outs[j] == Some(circuit.net().slots(4 + j)[0]));
    }
}

/// A bench of library components is stable after two iterations: the
/// first resolves the rails and updates the component for them, the second
/// resolves the outputs, and then nothing is left to change.
proof fn lemma_bench_settles(
    builder: CircuitBuilder,
    built: Circuit,
    once: Circuit,
    twice: Circuit,
    input_wires: Seq<WireRef>,
    width: nat,
)
    requires
        builder.library_only(),
        builder.builds(built),
        built.wf(),
        once.iterated(&built),
        twice.iterated(&once),
        builder.num_wires() == 4 + width,
        builder.num_components() == 4,
        builder.input_wires(0).len() == 0,
        builder.input_wires(1).len() == 0,
        builder.input_wires(2).len() == 0,
        builder.output_pins(0) == seq![Pin { wire_id: 0, input_id: 0 }],
        builder.output_pins(1) == seq![Pin { wire_id: 1, input_id: 0 }],
        builder.output_pins(2) == seq![Pin { wire_id: 3, input_id: 0 }],
        builder.input_wires(3) == indices(input_wires),
        forall|i: int| 0 <= i < input_wires.len() ==> 0 <= (#[trigger] input_wires[i]).index() < 4,
        builder.num_slots(0) == 1,
        builder.num_slots(1) == 1,
        builder.num_slots(2) == 0,
        builder.num_slots(3) == 1,
    ensures
        twice.is_stable(),
{
    built.lemma_wiring();
    once.lemma_wiring();
    twice.lemma_wiring();
    assert forall|k: int| 0 <= k < 4 implies once.net().input_wires(k) == builder.input_wires(k)
        && twice.net().input_wires(k) == builder.input_wires(k) && once.net().output_pins(k)
        == builder.output_pins(k) && twice.net().output_pins(k) == builder.output_pins(k)
        && built.net().input_wires(k) == builder.input_wires(k) && built.net().output_pins(k)
        == builder.output_pins(k) by {
        assert(once.wiring().input_wires[k] == built.wiring().input_wires[k]);
        assert(once.wiring().output_pins[k] == built.wiring().output_pins[k]);
        assert(twice.wiring().input_wires[k] == built.wiring().input_wires[k]);
        assert(twice.wiring().output_pins[k] == built.wiring().output_pins[k]);
        assert(built.net().input_wires(k) == builder.input_wires(k));
    }
    assert forall|w: int| 0 <= w < 4 + width implies once.net().slots(w).len()
        == built.net().slots(w).len() && built.net().slots(w).len() == builder.num_slots(w) by {
        assert(once.wiring().slot_counts[w] == built.wiring().slot_counts[w]);
        assert(once.wiring().slot_counts[w] == once.net().slots(w).len());
        assert(built.wiring().slot_counts[w] == built.net().slots(w).len());
    }
    // every component is of the library, whatever state it is in
    assert forall|k: int| 0 <= k < 4 implies !(#[trigger] built.component(k) is Custom) by {
        assert(!(builder.component(k) is Custom));
        assert(builder.component_built(built, k));
    }
    assert forall|k: int| 0 <= k < 4 implies !(#[trigger] once.component(k) is Custom) by {
        assert(!(built.component(k) is Custom));
        assert(once.component_iterated(&built, k));
    }
    // the rails are not updated in the first iteration, so their wires stay clean
    assert forall|k: int| 0 <= k < 3 implies once.net().outputs_of(k) == built.net().outputs_of(
        k,
    ) by {
        assert(!built.triggered(k));
        assert(once.component_iterated(&built, k));
    }
    assert forall|w: int| 0 <= w < 4 implies !once.unstable(w) by {
        if w == 2 {
            assert(once.net().slots(w) =~= built.net().slots(w));
        } else {
            let k = if w == 3 {
                2int
            } else {
                w
            };
            let pin = Pin { wire_id: w as usize, input_id: 0 };
            assert(builder.output_pins(k)[0] == pin);
            assert(once.net().outputs_of(k)[0] == once.net().slot_at(pin));
            assert(built.net().outputs_of(k)[0] == built.net().slot_at(pin));
            assert(once.net().slots(w) =~= built.net().slots(w));
        }
        assert(once.unstable(w) <==> once.net().slots(w) != built.net().slots(w));
    }
    // so nothing is updated in the second iteration
    assert forall|k: int| 0 <= k < 4 implies !once.triggered(k) by {
        if once.triggered(k) {
            let i = choose|i: int|
                0 <= i < once.net().input_wires(k).len() && once.changes(
                    (#[trigger] once.net().input_wires(k)[i]) as int,
                );
            assert(k == 3);
            assert(indices(input_wires)[i] == input_wires[i].index() as usize);
            assert(0 <= input_wires[i].index() < 4);
            assert(!once.unstable(once.net().input_wires(k)[i] as int));
        }
    }
    assert forall|k: int| 0 <= k < twice.num_components() implies #[trigger] twice.net().outputs_of(
        k,
    ) == once.net().outputs_of(k) by {
        assert(twice.component_iterated(&once, k));
    }
    assert forall|w: int, s: int|
        0 <= w < twice.num_wires() && 0 <= s < twice.net().slots(w).len() && !twice.net().pinned(
            w,
            s,
        ) implies #[trigger] twice.net().slots(w)[s] == once.net().slots(w)[s] by {
        if once.net().pinned(w, s) {
            let (k, j) = choose|k: int, j: int|
                0 <= k < once.net().num_components() && 0 <= j < once.net().output_pins(k).len()
                    && #[trigger] once.net().output_pins(k)[j] == (Pin {
                    wire_id: w as usize,
                    input_id: s as usize,
                });
            assert(twice.net().output_pins(k)[j] == (Pin {
                wire_id: w as usize,
                input_id: s as usize,
            }));
        }
    }
    assert forall|k: int| 0 <= k < twice.num_components() implies #[trigger] twice.net().output_pins(
        k,
    ) == once.net().output_pins(k) by {}
    twice.lemma_same_slots(&once);
    assert forall|w: int| 0 <= w < twice.num_wires() implies !twice.unstable(w) by {
        assert(twice.net().slots(w) == once.net().slots(w));
        assert(twice.unstable(w) <==> twice.net().slots(w) != once.net().slots(w));
    }
    twice.lemma_stable_wires();
}

/// Puts `component` on a bench and returns what its outputs settle to, or
/// `None` if the bench has not settled after ten iterations, which only a
/// component from outside the library can bring about.
pub fn simulate_component_internal(
    component: ComponentKind,
    inputs: &[(usize, u64, u64)],
    outputs: &[usize],
) -> (result: Option<Vec<(u64, u64)>>)
    requires
        bench_fits(inputs@, outputs@),
        component.accepts(
            input_width(inputs@, inputs@.len() as int),
            output_width(outputs@, outputs@.len() as int),
        ),
    ensures
        result matches Some(groups) ==> reads_back(component, inputs@, outputs@, groups@),
        !(component is Custom) ==> result is Some,
{
    let mut builder = CircuitBuilder::new();
    let power = builder.add_wire();
    let ground = builder.add_wire();
    let floating = builder.add_wire();
    let error = builder.add_wire();

    // Set up inputs
    let mut input_wires: Vec<WireRef> = Vec::new();
    let mut g: usize = 0;
    while g < inputs.len()
        invariant
            0 <= g <= inputs@.len(),
            bench_fits(inputs@, outputs@),
            input_wires@.len() == input_width(inputs@, g as int),
            bench_inputs(inputs@, g as int).len() == input_wires@.len(),
            forall|i: int|
                0 <= i < input_wires@.len() ==> 0 <= (#[trigger] input_wires@[i]).index() < 4
                    && rail_level(input_wires@[i].index()) == bench_inputs(inputs@, g as int)[i],
            power.index() == 0,
            ground.index() == 1,
            floating.index() == 2,
            error.index() == 3,
        decreases inputs@.len() - g,
    {
        let (bits, v1, v2) = inputs[g];
        let mut bit: usize = 0;
        let ghost before = bench_inputs(inputs@, g as int);
        let ghost group = Seq::new(
            bits as nat,
            |bit: int| level_of((v1 >> (bit as u64)) & 1 == 1, (v2 >> (bit as u64)) & 1 == 1),
        );
        proof {
            lemma_widths(inputs@, outputs@, g as int + 1, 0);
            assert(bench_inputs(inputs@, g as int + 1) == before + group);
        }
        while bit < bits
            invariant
                0 <= bit <= bits <= 64,
                input_wires@.len() == before.len() + bit,
                before.len() + bits < TAIL_INDEX,
                group == Seq::new(
                    bits as nat,
                    |bit: int|
                        level_of((v1 >> (bit as u64)) & 1 == 1, (v2 >> (bit as u64)) & 1 == 1),
                ),
                forall|i: int|
                    0 <= i < input_wires@.len() ==> 0 <= (#[trigger] input_wires@[i]).index() < 4
                        && rail_level(input_wires@[i].index()) == (before + group)[i],
                power.index() == 0,
                ground.index() == 1,
                floating.index() == 2,
                error.index() == 3,
            decreases bits - bit,
        {
            let a: bool = (v1 >> (bit as u64)) & 1 == 1;
            let b: bool = (v2 >> (bit as u64)) & 1 == 1;
            proof {
                assert((before + group)[before.len() + bit] == group[bit as int]);
            }
            input_wires.push(
                match (a, b) {
                    (false, false) => ground,
                    (true, false) => power,
                    (false, true) => floating,
                    (true, true) => error,
                },
            );
            bit += 1;
        }
        g += 1;
    }

    // Set up outputs
    let mut output_wires: Vec<WireRef> = Vec::new();
    let mut g: usize = 0;
    while g < outputs.len()
        invariant
            0 <= g <= outputs@.len(),
            bench_fits(inputs@, outputs@),
            builder.wf(),
            builder.num_components() == 0,
            builder.num_pins() == 0,
            builder.num_wires() == 4 + output_wires@.len(),
            output_wires@.len() == output_width(outputs@, g as int),
            forall|w: int| 0 <= w < builder.num_wires() ==> builder.num_slots(w) == 0,
            forall|i: int|
                0 <= i < output_wires@.len() ==> (#[trigger] output_wires@[i]).index() == 4 + i,
        decreases outputs@.len() - g,
    {
        let bits: usize = outputs[g];
        let mut bit: usize = 0;
        proof {
            lemma_widths(inputs@, outputs@, 0, g as int + 1);
        }
        while bit < bits
            invariant
                0 <= bit <= bits <= 64,
                builder.wf(),
                builder.num_components() == 0,
                builder.num_pins() == 0,
                builder.num_wires() == 4 + output_wires@.len(),
                output_wires@.len() == output_width(outputs@, g as int) + bit,
                output_width(outputs@, g as int) + bits + 8 < TAIL_INDEX,
                forall|w: int| 0 <= w < builder.num_wires() ==> builder.num_slots(w) == 0,
                forall|i: int|
                    0 <= i < output_wires@.len() ==> (#[trigger] output_wires@[i]).index() == 4 + i,
            decreases bits - bit,
        {
            let wire = builder.add_wire();
            output_wires.push(wire);
            bit += 1;
        }
        g += 1;
    }
    let ghost width = output_wires@.len();

    let none: Vec<WireRef> = Vec::new();
    let mut rail: Vec<WireRef> = Vec::new();
    rail.push(power);
    builder.add_component(
        Constant::new(VoltageInput::strong(Voltage::High)),
        none.as_slice(),
        rail.as_slice(),
    );
    proof {
        reveal_with_fuel(occurrences, 2);
        assert(builder.output_pins(0) =~= seq![Pin { wire_id: 0, input_id: 0 }]) by {
            assert(builder.output_pins(0)[0] == pin_for(rail@, 0, 0));
        }
        assert forall|w: int| 0 <= w < builder.num_wires() implies builder.num_slots(w) == (if w
            == 0 {
            1nat
        } else {
            0nat
        }) by {}
    }
    let mut rail: Vec<WireRef> = Vec::new();
    rail.push(ground);
    let ghost one = builder;
    builder.add_component(
        Constant::new(VoltageInput::strong(Voltage::Low)),
        none.as_slice(),
        rail.as_slice(),
    );
    proof {
        reveal_with_fuel(occurrences, 2);
        assert(builder.input_wires(0) == one.input_wires(0));
        assert(builder.output_pins(1) =~= seq![Pin { wire_id: 1, input_id: 0 }]) by {
            assert(builder.output_pins(1)[0] == pin_for(rail@, 0, 0));
        }
        assert forall|w: int| 0 <= w < builder.num_wires() implies builder.num_slots(w) == (if w
            == 0 || w == 1 {
            1nat
        } else {
            0nat
        }) by {}
    }
    let mut rail: Vec<WireRef> = Vec::new();
    rail.push(error);
    let ghost two = builder;
    builder.add_component(
        Constant::new(VoltageInput::strong(Voltage::Error)),
        none.as_slice(),
        rail.as_slice(),
    );
    proof {
        reveal_with_fuel(occurrences, 2);
        assert(builder.input_wires(0) == two.input_wires(0));
        assert(builder.input_wires(1) == two.input_wires(1));
        assert(builder.output_pins(2) =~= seq![Pin { wire_id: 3, input_id: 0 }]) by {
            assert(builder.output_pins(2)[0] == pin_for(rail@, 0, 0));
        }
        assert forall|w: int| 0 <= w < builder.num_wires() implies builder.num_slots(w) == (if w
            == 0 || w == 1 || w == 3 {
            1nat
        } else {
            0nat
        }) by {}
    }
    let ghost rails = builder;
    builder.add_boxed_component(component, input_wires.as_slice(), output_wires.as_slice());
    proof {
        assert(builder.input_wires(0) == rails.input_wires(0));
        assert(builder.input_wires(1) == rails.input_wires(1));
        assert(builder.input_wires(2) == rails.input_wires(2));
        assert forall|j: int| 0 <= j < width implies #[trigger] builder.output_pins(3)[j] == (Pin {
            wire_id: (4 + j) as usize,
            input_id: 0,
        }) by {
            lemma_fresh_outputs(output_wires@, 4 + j, j);
            assert(builder.output_pins(3)[j] == pin_for(
                output_wires@,
                j,
                rails.num_slots(output_wires@[j].index()),
            ));
        }
        assert forall|w: int| 0 <= w < builder.num_wires() implies builder.num_slots(w) == (if w
            == 2 {
            0nat
        } else {
            1nat
        }) by {
            lemma_fresh_outputs(output_wires@, w, width as int);
        }
    }

    let mut circuit = builder.build();
    let ghost built = circuit;
    if !circuit.propagate(10) {
        proof {
            if !(component is Custom) {
                let trace = choose|trace: Seq<Circuit>| #[trigger]
                    circuit.ends(&built, trace, 10, false);
                assert(trace[1].iterated(&trace[0]));
                assert(trace[2].iterated(&trace[1]));
                assert(builder.library_only());
                lemma_bench_settles(builder, built, trace[1], trace[2], input_wires@, width);
                assert(!trace[2].is_stable());
            }
        }
        return None;
    }
    let ghost levels = Seq::new(width, |j: int| circuit.net().voltage(4 + j));
    proof {
        lemma_bench(builder, built, circuit, component, input_wires@, width);
        lemma_widths(inputs@, outputs@, inputs@.len() as int, outputs@.len() as int);
        assert(circuit.net().inputs_of(3) =~= bench_inputs(inputs@, inputs@.len() as int));
    }

    // Decode result
    let mut result: Vec<(u64, u64)> = Vec::new();
    let mut index: usize = 0;
    let mut g: usize = 0;
    while g < outputs.len()
        invariant
            0 <= g <= outputs@.len(),
            bench_fits(inputs@, outputs@),
            circuit.wf(),
            circuit.num_wires() == 4 + output_wires@.len(),
            output_wires@.len() == output_width(outputs@, outputs@.len() as int) == width,
            forall|i: int|
                0 <= i < output_wires@.len() ==> (#[trigger] output_wires@[i]).index() == 4 + i,
            index == output_width(outputs@, g as int),
            levels == Seq::new(width, |j: int| circuit.net().voltage(4 + j)),
            result@.len() == g,
            forall|x: int| 0 <= x < g ==> #[trigger] result@[x] == read_back(outputs@, levels)[x],
        decreases outputs@.len() - g,
    {
        let bits: usize = outputs[g];
        let mut v1: u64 = 0;
        let mut v2: u64 = 0;
        let mut bit: usize = 0;
        let ghost base = index as int;
        proof {
            lemma_widths(inputs@, outputs@, 0, g as int + 1);
        }
        while bit < bits
            invariant
                0 <= bit <= bits <= 64,
                circuit.wf(),
                circuit.num_wires() == 4 + output_wires@.len(),
                output_wires@.len() == width,
                forall|i: int|
                    0 <= i < output_wires@.len() ==> (#[trigger] output_wires@[i]).index() == 4 + i,
                index == base + bit,
                base + bits <= output_wires@.len() <= usize::MAX,
                levels == Seq::new(width, |j: int| circuit.net().voltage(4 + j)),
                v1 == packed(levels, base, bit as int, true),
                v2 == packed(levels, base, bit as int, false),
            decreases bits - bit,
        {
            let (a, b): (bool, bool) = match circuit.wire(output_wires[index]).voltage {
                Voltage::Low => (false, false),
                Voltage::High => (true, false),
                Voltage::Floating => (false, true),
                Voltage::Error => (true, true),
            };
            proof {
                assert(levels[base + bit] == circuit.net().voltage(4 + index));
            }
            if a {
                v1 |= 1u64 << (bit as u64);
            }
            if b {
                v2 |= 1u64 << (bit as u64);
            }
            index += 1;
            bit += 1;
        }
        result.push((v1, v2));
        g += 1;
    }
    proof {
        assert(result@ =~= read_back(outputs@, levels));
        assert(component.same_make(circuit.component(3)));
        let driven = circuit.component(3).driven(
            bench_inputs(inputs@, inputs@.len() as int),
            width,
        );
        assert forall|j: int|
            0 <= j < width && j < driven.len() && driven[j] is Some implies #[trigger] levels[j]
            == driven[j].unwrap().voltage by {
            assert(levels[j] == circuit.net().voltage(4 + j));
        }
        assert(read_back(outputs@, levels) == result@);
        assert(reads_back(component, inputs@, outputs@, result@));
    }
    Some(result)
}

/// Puts a component of the library on a bench and returns what its outputs
/// settle to. A bench of library components always settles.
pub fn simulate_component<T: AnyComponent>(
    component: T,
    inputs: &[(usize, u64, u64)],
    outputs: &[usize],
) -> (groups: Vec<(u64, u64)>)
    requires
        bench_fits(inputs@, outputs@),
        component.accepts(
            input_width(inputs@, inputs@.len() as int),
            output_width(outputs@, outputs@.len() as int),
        ),
    ensures
        reads_back(component.kind_of(), inputs@, outputs@, groups@),
{
    match simulate_component_internal(component.into_kind(), inputs, outputs) {
        Some(groups) => groups,
        None => vstd::pervasive::unreached(),
    }
}

} // verus!
