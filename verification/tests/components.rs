use logic_sim::arithmetic::{Adder, Comparator, Multiplier, Negator, Shifter, Subtractor};
use logic_sim::gates::{
    AndGate, Buffer, Constant, ControlledBuffer, ControlledInverter, ImplyGate, NandGate,
    NaryAndGate, NaryOrGate, NorGate, NotGate, OrGate, ParityGate, XnorGate, XorGate,
};
use logic_sim::plexers::{Demultiplexer, Multiplexer, PriorityEncoder};
use logic_sim::test_utils::simulate_component;
use logic_sim::{AnyComponent, Voltage, VoltageInput};

const L: (usize, u64, u64) = (1, 0, 0);
const H: (usize, u64, u64) = (1, 1, 0);
const F: (usize, u64, u64) = (1, 0, 1);
const E: (usize, u64, u64) = (1, 1, 1);

fn one<T: AnyComponent>(gate: T, inputs: &[(usize, u64, u64)]) -> (usize, u64, u64) {
    let out = simulate_component(gate, inputs, &[1]);
    assert_eq!(out.len(), 1);
    (1, out[0].0, out[0].1)
}

#[test]
fn unary_gates() {
    assert_eq!(one(Buffer::new(), &[L]), L);
    assert_eq!(one(Buffer::new(), &[H]), H);
    assert_eq!(one(Buffer::new(), &[F]), F);
    assert_eq!(one(Buffer::new(), &[E]), E);
    assert_eq!(one(NotGate::new(), &[L]), H);
    assert_eq!(one(NotGate::new(), &[H]), L);
    assert_eq!(one(NotGate::new(), &[F]), E);
    assert_eq!(one(NotGate::new(), &[E]), E);
}

#[test]
fn and_or_gates() {
    assert_eq!(one(AndGate::new(), &[L, L]), L);
    assert_eq!(one(AndGate::new(), &[L, H]), L);
    assert_eq!(one(AndGate::new(), &[H, L]), L);
    assert_eq!(one(AndGate::new(), &[H, H]), H);
    assert_eq!(one(AndGate::new(), &[L, F]), L);
    assert_eq!(one(AndGate::new(), &[E, L]), L);
    assert_eq!(one(AndGate::new(), &[H, F]), E);
    assert_eq!(one(AndGate::new(), &[F, E]), E);

    assert_eq!(one(OrGate::new(), &[L, L]), L);
    assert_eq!(one(OrGate::new(), &[L, H]), H);
    assert_eq!(one(OrGate::new(), &[H, H]), H);
    assert_eq!(one(OrGate::new(), &[H, F]), H);
    assert_eq!(one(OrGate::new(), &[E, H]), H);
    assert_eq!(one(OrGate::new(), &[L, F]), E);

    assert_eq!(one(NandGate::new(), &[L, F]), H);
    assert_eq!(one(NandGate::new(), &[H, H]), L);
    assert_eq!(one(NandGate::new(), &[H, L]), H);
    assert_eq!(one(NandGate::new(), &[H, E]), E);

    assert_eq!(one(NorGate::new(), &[H, F]), L);
    assert_eq!(one(NorGate::new(), &[L, L]), H);
    assert_eq!(one(NorGate::new(), &[L, H]), L);
    assert_eq!(one(NorGate::new(), &[L, E]), E);
}

#[test]
fn xor_and_imply_gates() {
    assert_eq!(one(XorGate::new(), &[L, L]), L);
    assert_eq!(one(XorGate::new(), &[L, H]), H);
    assert_eq!(one(XorGate::new(), &[H, L]), H);
    assert_eq!(one(XorGate::new(), &[H, H]), L);
    assert_eq!(one(XorGate::new(), &[L, F]), E);
    assert_eq!(one(XorGate::new(), &[E, H]), E);

    assert_eq!(one(XnorGate::new(), &[L, L]), H);
    assert_eq!(one(XnorGate::new(), &[L, H]), L);
    assert_eq!(one(XnorGate::new(), &[H, H]), H);
    assert_eq!(one(XnorGate::new(), &[F, H]), E);

    assert_eq!(one(ImplyGate::new(), &[L, L]), H);
    assert_eq!(one(ImplyGate::new(), &[L, F]), H);
    assert_eq!(one(ImplyGate::new(), &[H, H]), H);
    assert_eq!(one(ImplyGate::new(), &[F, H]), H);
    assert_eq!(one(ImplyGate::new(), &[H, L]), L);
    assert_eq!(one(ImplyGate::new(), &[H, F]), E);
    assert_eq!(one(ImplyGate::new(), &[F, L]), E);
}

#[test]
fn controlled_gates() {
    assert_eq!(one(ControlledBuffer::new(), &[L, H]), L);
    assert_eq!(one(ControlledBuffer::new(), &[H, H]), H);
    assert_eq!(one(ControlledBuffer::new(), &[F, H]), F);
    assert_eq!(one(ControlledBuffer::new(), &[E, H]), E);
    assert_eq!(one(ControlledBuffer::new(), &[H, L]), F);
    assert_eq!(one(ControlledBuffer::new(), &[E, L]), F);
    assert_eq!(one(ControlledBuffer::new(), &[H, F]), E);
    assert_eq!(one(ControlledBuffer::new(), &[L, E]), E);

    assert_eq!(one(ControlledInverter::new(), &[L, H]), H);
    assert_eq!(one(ControlledInverter::new(), &[H, H]), L);
    assert_eq!(one(ControlledInverter::new(), &[F, H]), E);
    assert_eq!(one(ControlledInverter::new(), &[H, L]), F);
    assert_eq!(one(ControlledInverter::new(), &[E, L]), F);
    assert_eq!(one(ControlledInverter::new(), &[H, E]), E);
}

#[test]
fn nary_gates() {
    assert_eq!(one(NaryAndGate::new(), &[H, H]), H);
    assert_eq!(one(NaryAndGate::new(), &[H, H, H, H]), H);
    assert_eq!(one(NaryAndGate::new(), &[H, H, L, H]), L);
    assert_eq!(one(NaryAndGate::new(), &[H, F, L]), L);
    assert_eq!(one(NaryAndGate::new(), &[H, F, H]), E);
    assert_eq!(one(NaryOrGate::new(), &[L, L, L]), L);
    assert_eq!(one(NaryOrGate::new(), &[L, L, H, L, L]), H);
    assert_eq!(one(NaryOrGate::new(), &[L, E, H]), H);
    assert_eq!(one(ParityGate::new(), &[H, H, H]), H);
    assert_eq!(one(ParityGate::new(), &[H, L, H, L]), L);
    assert_eq!(one(ParityGate::new(), &[(4, 0b1011, 0), (3, 0b110, 0)]), H);
    assert_eq!(one(ParityGate::new(), &[H, F, H]), E);
}

#[test]
fn constant() {
    let weak_high = VoltageInput { voltage: Voltage::High, resistor: true };
    assert_eq!(one(Constant::new(weak_high), &[]), H);
    assert_eq!(one(Constant::new(Voltage::Floating.into()), &[]), F);
    let mut constant = Constant::new(Voltage::Low.into());
    assert_eq!(constant.get(), Voltage::Low.into());
    constant.set(Voltage::Error.into()).set(weak_high);
    assert_eq!(constant.get(), weak_high);
    assert_eq!(one(constant, &[]), H);
}

#[test]
fn adder_scenarios() {
    assert_eq!(
        simulate_component(Adder::new(), &[(8, 0x5A, 0), (8, 0xA5, 0), L], &[8, 1]),
        [(0xFF, 0), (0, 0)]
    );
    assert_eq!(
        simulate_component(Adder::new(), &[(8, 0xFF, 0), (8, 0x01, 0), L], &[8, 1]),
        [(0x00, 0), (1, 0)]
    );
    assert_eq!(
        simulate_component(Adder::new(), &[(8, 0xFF, 0), (8, 0xFF, 0), H], &[9]),
        [(0x1FF, 0)]
    );
    // no width at all: the carry goes straight through
    assert_eq!(simulate_component(Adder::new(), &[H], &[1]), [(1, 0)]);
}

#[test]
fn adder_and_subtractor_with_carry() {
    for bits in [1usize, 8, 10, 32] {
        let mask = (1u64 << bits) - 1;
        for a in [0u64, 1, 2, 7, 100, 997, !0, !0 >> 1] {
            for b in [0u64, 1, 5, 255, 4096, !0, !1] {
                for carry in 0..2u64 {
                    let (a, b) = (a & mask, b & mask);
                    assert_eq!(
                        simulate_component(
                            Adder::new(),
                            &[(bits, a, 0), (bits, b, 0), (1, carry, 0)],
                            &[bits + 1]
                        ),
                        [((a + b + carry) % (1 << (bits + 1)), 0)]
                    );
                    assert_eq!(
                        simulate_component(
                            Subtractor::new(),
                            &[(bits, a, 0), (bits, b, 0), (1, carry, 0)],
                            &[bits + 1]
                        ),
                        [(
                            a.wrapping_sub(b).wrapping_sub(carry) % (1 << (bits + 1)),
                            0
                        )]
                    );
                }
            }
        }
    }
}

#[test]
fn an_undefined_bit_spoils_the_bits_above_it() {
    // bit 2 of the first operand floats
    assert_eq!(
        simulate_component(Adder::new(), &[(4, 0b0011, 0b0100), (4, 0b0001, 0), L], &[5]),
        [(0b11100, 0b11100)]
    );
    assert_eq!(
        simulate_component(Subtractor::new(), &[(4, 0b0011, 0), (4, 0b0001, 0b0100), L], &[5]),
        [(0b11110, 0b11100)]
    );
    // the carry-in is an error
    assert_eq!(
        simulate_component(Adder::new(), &[(2, 1, 0), (2, 1, 0), E], &[3]),
        [(7, 7)]
    );
    assert_eq!(
        simulate_component(Subtractor::new(), &[(2, 1, 0), (2, 1, 0), F], &[3]),
        [(7, 7)]
    );
}

#[test]
fn multiplier() {
    for bits in [1usize, 2, 4, 8, 16] {
        let mask = (1u64 << bits) - 1;
        for a in [0u64, 1, 2, 3, 5, 100, 255, 997, 65535] {
            for b in [0u64, 1, 3, 7, 200, 255, 1023, 65535] {
                let (a, b) = (a & mask, b & mask);
                assert_eq!(
                    simulate_component(
                        Multiplier::new(),
                        &[(bits, a, 0), (bits, b, 0), (bits, 0, 0)],
                        &[2 * bits]
                    ),
                    [((a * b) % (1 << (2 * bits)), 0)],
                    "bits: {}, a: {}, b: {}",
                    bits,
                    a,
                    b
                );
                for c in [1u64, 2, 255, 65535] {
                    let c = c & mask;
                    assert_eq!(
                        simulate_component(
                            Multiplier::new(),
                            &[(bits, a, 0), (bits, b, 0), (bits, c, 0)],
                            &[2 * bits]
                        ),
                        [(a * b + c, 0)]
                    );
                }
            }
        }
    }
}

#[test]
fn multiplier_with_an_undefined_bit() {
    // a = 0b?1 with bit 1 floating, b = 0b01: column 1 is spoiled, and the
    // error is gone once the carry has run out
    assert_eq!(
        simulate_component(
            Multiplier::new(),
            &[(2, 0b01, 0b10), (2, 0b01, 0), (2, 0, 0)],
            &[4]
        ),
        [(0b0011, 0b0010)]
    );
    // a = 0b?1, b = 0b11: the spoiled columns carry, so the error stays
    // until the top column has taken the last carry
    assert_eq!(
        simulate_component(
            Multiplier::new(),
            &[(2, 0b01, 0b10), (2, 0b11, 0), (2, 0, 0)],
            &[4]
        ),
        [(0b1111, 0b1110)]
    );
    // a low factor bit hides what the other factor bit is
    assert_eq!(
        simulate_component(
            Multiplier::new(),
            &[(2, 0b11, 0b11), (2, 0b00, 0), (2, 0b10, 0)],
            &[4]
        ),
        [(0b0010, 0)]
    );
}

#[test]
fn negator() {
    assert_eq!(simulate_component(Negator::new(), &[(4, 3, 0)], &[4]), [(13, 0)]);
    assert_eq!(simulate_component(Negator::new(), &[(4, 0, 0)], &[4]), [(0, 0)]);
    assert_eq!(simulate_component(Negator::new(), &[(4, 8, 0)], &[4]), [(8, 0)]);
    for b in [1u64, 2, 77, 128, 255] {
        assert_eq!(
            simulate_component(Negator::new(), &[(8, b, 0)], &[8]),
            [(256 - b, 0)]
        );
    }
    assert_eq!(
        simulate_component(Negator::new(), &[(4, 0b0001, 0b0100)], &[4]),
        [(0b1111, 0b1100)]
    );
}

#[test]
fn comparator() {
    let compare = |a: (usize, u64, u64), b: (usize, u64, u64)| {
        simulate_component(Comparator::new(), &[a, b], &[3])[0]
    };
    for a in 0..8u64 {
        for b in 0..8u64 {
            let expected = if a < b {
                1
            } else if a == b {
                2
            } else {
                4
            };
            assert_eq!(compare((3, a, 0), (3, b, 0)), (expected, 0), "a: {}, b: {}", a, b);
        }
    }
    assert_eq!(compare((0, 0, 0), (0, 0, 0)), (2, 0));
    // the top bit of b is unknown against a low bit of a: a is not the greater
    assert_eq!(compare((2, 0b00, 0), (2, 0b00, 0b10)), (0b011, 0b011));
    assert_eq!(compare((2, 0b00, 0), (2, 0b10, 0b10)), (0b011, 0b011));
    // and a lower bit can still decide for "less"
    assert_eq!(compare((2, 0b00, 0), (2, 0b01, 0b10)), (0b001, 0));
    // but not for "greater"
    assert_eq!(compare((2, 0b01, 0), (2, 0b00, 0b10)), (0b010, 0b010));
    // the top bit of a is unknown against a low bit of b: a is not the smaller
    assert_eq!(compare((2, 0b00, 0b10), (2, 0b00, 0)), (0b110, 0b110));
    assert_eq!(compare((2, 0b10, 0b10), (2, 0b00, 0)), (0b110, 0b110));
    assert_eq!(compare((2, 0b01, 0b10), (2, 0b00, 0)), (0b100, 0));
    // an unknown bit of a against a high bit of b: a is not the greater
    assert_eq!(compare((2, 0b00, 0b10), (2, 0b10, 0)), (0b011, 0b011));
    assert_eq!(compare((2, 0b10, 0), (2, 0b00, 0b10)), (0b110, 0b110));
    // both unknown: nothing can be said
    assert_eq!(compare((2, 0b00, 0b10), (2, 0b10, 0b10)), (0b010, 0b010));
    // decided above the unknown bit
    assert_eq!(compare((2, 0b10, 0b01), (2, 0b00, 0b01)), (0b100, 0));
}

#[test]
fn shifter() {
    let shift = |by: (usize, u64, u64), data: (usize, u64, u64)| {
        simulate_component(Shifter::new(2), &[by, data], &[4])[0]
    };
    assert_eq!(shift((2, 0, 0), (4, 0b1011, 0)), (0b1011, 0));
    assert_eq!(shift((2, 1, 0), (4, 0b1011, 0)), (0b0110, 0));
    assert_eq!(shift((2, 2, 0), (4, 0b1011, 0)), (0b1100, 0));
    assert_eq!(shift((2, 3, 0), (4, 0b1011, 0)), (0b1000, 0));
    assert_eq!(shift((2, 1, 0), (4, 0b0001, 0b0100)), (0b0010, 0b1000));
    assert_eq!(shift((2, 1, 2), (4, 0b1011, 0)), (0b1111, 0b1111));
    assert_eq!(
        simulate_component(Shifter::new(0), &[H], &[1]),
        [(1, 0)]
    );
    assert_eq!(
        simulate_component(Shifter::new(3), &[(3, 5, 0), (8, 0b0000_0111, 0)], &[8]),
        [(0b1110_0000, 0)]
    );
}

#[test]
fn multiplexer() {
    let multiplexer = Multiplexer::new(2);
    assert_eq!(multiplexer.select_bits(), 2);
    for index in 0..4u64 {
        for data in 0..16u64 {
            assert_eq!(
                one(multiplexer, &[(2, index, 0), (4, data, 0)]),
                (1, (data >> index) & 1, 0)
            );
        }
    }
    assert_eq!(one(multiplexer, &[(2, 2, 0), (4, 0, 0b0100)]), F);
    assert_eq!(one(multiplexer, &[(2, 2, 0), (4, 0b0100, 0b0100)]), E);
    assert_eq!(one(multiplexer, &[(2, 0, 1), (4, 0b1111, 0)]), E);
    assert_eq!(one(multiplexer, &[(2, 2, 2), (4, 0b1111, 0)]), E);
    assert_eq!(one(Multiplexer::new(0), &[H]), H);
}

#[test]
fn demultiplexer() {
    let mut demultiplexer = Demultiplexer::new(2);
    assert_eq!(demultiplexer.select_bits(), 2);
    assert!(!demultiplexer.three_state());
    for index in 0..4u64 {
        assert_eq!(
            simulate_component(demultiplexer, &[(2, index, 0), H], &[4]),
            [(1 << index, 0)]
        );
        assert_eq!(
            simulate_component(demultiplexer, &[(2, index, 0), L], &[4]),
            [(0, 0)]
        );
        assert_eq!(
            simulate_component(demultiplexer, &[(2, index, 0), F], &[4]),
            [(0, 1 << index)]
        );
    }
    assert_eq!(
        simulate_component(demultiplexer, &[(2, 1, 2), H], &[4]),
        [(15, 15)]
    );
    demultiplexer.set_three_state(true);
    assert!(demultiplexer.three_state());
    for index in 0..4u64 {
        assert_eq!(
            simulate_component(demultiplexer, &[(2, index, 0), H], &[4]),
            [(1 << index, 15 & !(1 << index))]
        );
        assert_eq!(
            simulate_component(demultiplexer, &[(2, index, 0), L], &[4]),
            [(0, 15 & !(1 << index))]
        );
    }
}

#[test]
fn priority_encoder() {
    let mut encoder = PriorityEncoder::new(2);
    assert_eq!(encoder.select_bits(), 2);
    assert!(!encoder.inverted());
    let encode = |encoder: PriorityEncoder, lines: (usize, u64, u64)| {
        simulate_component(encoder, &[lines], &[1, 2])
    };
    assert_eq!(encode(encoder, (4, 0b0000, 0)), vec![(0, 0), (0, 3)]);
    assert_eq!(encode(encoder, (4, 0b0001, 0)), vec![(1, 0), (0, 0)]);
    assert_eq!(encode(encoder, (4, 0b0110, 0)), vec![(1, 0), (2, 0)]);
    assert_eq!(encode(encoder, (4, 0b1010, 0)), vec![(1, 0), (3, 0)]);
    // an undefined line below the highest that is asserted does not matter
    assert_eq!(encode(encoder, (4, 0b0101, 0b0001)), vec![(1, 0), (2, 0)]);
    assert_eq!(encode(encoder, (4, 0b0100, 0b0010)), vec![(1, 0), (2, 0)]);
    // one above it does
    assert_eq!(encode(encoder, (4, 0b0100, 0b1000)), vec![(1, 1), (3, 3)]);
    assert_eq!(encode(encoder, (4, 0b0000, 0b0001)), vec![(1, 1), (3, 3)]);
    encoder.set_inverted(true);
    assert!(encoder.inverted());
    assert_eq!(encode(encoder, (4, 0b1111, 0)), vec![(0, 0), (0, 3)]);
    assert_eq!(encode(encoder, (4, 0b1011, 0)), vec![(1, 0), (2, 0)]);
    assert_eq!(encode(encoder, (4, 0b0000, 0)), vec![(1, 0), (3, 0)]);
    assert_eq!(encode(encoder, (4, 0b1110, 0)), vec![(1, 0), (0, 0)]);
}
