//! Reading a binary selector from the first inputs of a component.
use vstd::prelude::*;
use vstd::arithmetic::power2::{pow2, lemma_pow2_strictly_increases, lemma_pow2_unfold, lemma2_to64, lemma2_to64_rest};
use vstd::bits::lemma_usize_shl_is_mul;
use crate::components::drive::bit_of;
use crate::circuit::ComponentInterface;
use crate::voltage::Voltage;

verus! {

/// The number that the first `n` of `inputs` spell, least significant bit
/// first; `None` where one of them carries no logic level.
pub open spec fn selected(inputs: Seq<Voltage>, n: int) -> Option<nat>
    decreases n,
{
    if n <= 0 {
        Some(0)
    } else {
        match (selected(inputs, n - 1), bit_of(inputs[n - 1])) {
            (Some(low), Some(bit)) => Some(
                if bit {
                    low + pow2((n - 1) as nat)
                } else {
                    low
                },
            ),
            _ => None,
        }
    }
}

/// A number spelled by `n` bits is below two to the `n`.
pub proof fn lemma_selected_bound(inputs: Seq<Voltage>, n: int)
    requires
        0 <= n,
    ensures
        selected(inputs, n) matches Some(v) ==> v < pow2(n as nat),
    decreases n,
{
    if n > 0 {
        lemma_selected_bound(inputs, n - 1);
        lemma_pow2_unfold(n as nat);
    } else {
        lemma2_to64();
    }
}

/// Once a bit without a logic level is met, no longer selector is spelled.
pub proof fn lemma_selected_none(inputs: Seq<Voltage>, i: int, n: int)
    requires
        0 <= i <= n,
        selected(inputs, i) is None,
    ensures
        selected(inputs, n) is None,
    decreases n - i,
{
    if i < n {
        lemma_selected_none(inputs, i, n - 1);
    }
}

/// A power of two that fits a `usize` has an exponent below its width.
pub proof fn lemma_pow2_fits(e: nat)
    requires
        pow2(e) <= usize::MAX,
    ensures
        e < usize::BITS,
{
    if e >= usize::BITS {
        lemma2_to64();
        lemma2_to64_rest();
        if e > usize::BITS {
            lemma_pow2_strictly_increases(usize::BITS as nat, e);
        }
    }
}

/// Reads the selector that the first `select_bits` inputs spell.
pub(crate) fn read_select(interface: &ComponentInterface, select_bits: usize) -> (index: Option<
    usize,
>)
    requires
        interface.wf(),
        select_bits <= interface.inputs().len(),
        pow2(select_bits as nat) <= usize::MAX,
    ensures
        match index {
            Some(v) => selected(interface.inputs(), select_bits as int) == Some(v as nat),
            None => selected(interface.inputs(), select_bits as int) is None,
        },
{
    let ghost inputs = interface.inputs();
    let mut index: usize = 0;
    let mut i: usize = 0;
    proof {
        lemma_pow2_fits(select_bits as nat);
    }
    while i < select_bits
        invariant
            0 <= i <= select_bits <= inputs.len(),
            select_bits < usize::BITS,
            inputs == interface.inputs(),
            interface.wf(),
            selected(inputs, i as int) == Some(index as nat),
        decreases select_bits - i,
    {
        proof {
            lemma_selected_bound(inputs, i as int);
            vstd::bits::lemma_usize_pow2_no_overflow(i as nat);
            lemma_usize_shl_is_mul(1, i);
        }
        match interface.input(i) {
            Voltage::Low => {},
            Voltage::High => {
                let bit: usize = 1usize << i;
                assert(index | bit == index + bit) by (bit_vector)
                    requires
                        bit == 1usize << i,
                        index < bit,
                        i < usize::BITS,
                ;
                index |= bit;
            },
            _ => {
                proof {
                    lemma_selected_none(inputs, i as int + 1, select_bits as int);
                }
                return None;
            },
        }
        i += 1;
    }
    Some(index)
}

} // verus!
