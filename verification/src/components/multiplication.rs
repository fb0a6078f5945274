//! Why the multiplier multiplies: the columns that it sums are the rows of
//! the schoolbook product, counted the other way.
use vstd::prelude::*;
use vstd::arithmetic::div_mod::lemma_fundamental_div_mod;
use vstd::arithmetic::power2::{pow2, lemma_pow2_adds, lemma_pow2_pos, lemma_pow2_unfold, lemma2_to64};
use crate::components::arithmetic::{
    addend_bit, all_defined, column, column_end, column_products, column_start, lemma_word_bound,
    multiplier_bit, multiplier_carry, multiplier_word, product_bit, word_value,
};
use crate::components::drive::level;
use crate::voltage::Voltage;

verus! {

/// One for `High`, zero otherwise.
pub open spec fn bit_value(v: Voltage) -> nat {
    if v == Voltage::High {
        1
    } else {
        0
    }
}

/// The sum of the product bits of column `i` in the rows below `r`.
pub open spec fn products_below(inputs: Seq<Voltage>, bits: int, i: int, r: int) -> nat {
    let end = if r < column_start(bits, i) {
        column_start(bits, i)
    } else if r > column_end(bits, i) {
        column_end(bits, i)
    } else {
        r
    };
    column_products(inputs, bits, i, end).0
}

/// The rows below `r`, summed column by column over the columns below `i`,
/// each column at its weight.
pub open spec fn grid(inputs: Seq<Voltage>, bits: int, r: int, i: int) -> nat
    decreases i,
{
    if i <= 0 {
        0
    } else {
        grid(inputs, bits, r, i - 1) + pow2((i - 1) as nat) * products_below(
            inputs,
            bits,
            i - 1,
            r,
        )
    }
}

/// What row `r` puts into the columns below `i`, each column at its weight.
pub open spec fn row(inputs: Seq<Voltage>, bits: int, r: int, i: int) -> nat
    decreases i,
{
    if i <= 0 {
        0
    } else {
        row(inputs, bits, r, i - 1) + (if r <= i - 1 < r + bits {
            pow2((i - 1) as nat) * (bit_value(inputs[r]) * bit_value(inputs[bits + (i - 1 - r)]))
        } else {
            0
        })
    }
}

/// With logic levels on all inputs no product bit spoils its column, and
/// each counts one exactly if both its factor bits are `High`.
proof fn lemma_products_clean(inputs: Seq<Voltage>, bits: int, i: int, end: int)
    requires
        0 <= bits,
        0 <= i < 2 * bits,
        end <= column_end(bits, i),
        all_defined(inputs, 0, 3 * bits),
    ensures
        !column_products(inputs, bits, i, end).1,
    decreases end,
{
    if end > column_start(bits, i) {
        lemma_products_clean(inputs, bits, i, end - 1);
        assert(inputs[end - 1].is_defined());
        assert(inputs[bits + i - (end - 1)].is_defined());
    }
}

/// Row `r` adds to column `i` its product bit if it has one there, and
/// nothing otherwise.
proof fn lemma_products_step(inputs: Seq<Voltage>, bits: int, i: int, r: int)
    requires
        0 <= r < bits,
        0 <= i < 2 * bits,
        all_defined(inputs, 0, 3 * bits),
    ensures
        products_below(inputs, bits, i, r + 1) == products_below(inputs, bits, i, r) + (if r <= i
            < r + bits {
            bit_value(inputs[r]) * bit_value(inputs[bits + (i - r)])
        } else {
            0
        }),
{
    if column_start(bits, i) <= r < column_end(bits, i) {
        assert(inputs[r].is_defined());
        assert(inputs[bits + i - r].is_defined());
        let x = bit_value(inputs[r]) as int;
        let y = bit_value(inputs[bits + (i - r)]) as int;
        assert(x * y == (if x == 1 && y == 1 {
            1int
        } else {
            0int
        })) by (nonlinear_arith)
            requires
                x == 0 || x == 1,
                y == 0 || y == 1,
        ;
    }
}

/// The rows below `r + 1` are the rows below `r` and row `r`.
proof fn lemma_grid_step(inputs: Seq<Voltage>, bits: int, r: int, i: int)
    requires
        0 <= r < bits,
        0 <= i <= 2 * bits,
        all_defined(inputs, 0, 3 * bits),
    ensures
        grid(inputs, bits, r + 1, i) == grid(inputs, bits, r, i) + row(inputs, bits, r, i),
    decreases i,
{
    if i > 0 {
        lemma_grid_step(inputs, bits, r, i - 1);
        lemma_products_step(inputs, bits, i - 1, r);
        let w = pow2((i - 1) as nat) as int;
        let p = products_below(inputs, bits, i - 1, r) as int;
        let q = products_below(inputs, bits, i - 1, r + 1) as int;
        let x = q - p;
        assert(w * q == w * p + w * x) by (nonlinear_arith)
            requires
                q == p + x,
        ;
    }
}

/// No row lies below row 0.
proof fn lemma_grid_empty(inputs: Seq<Voltage>, bits: int, i: int)
    requires
        0 <= bits,
        0 <= i <= 2 * bits,
    ensures
        grid(inputs, bits, 0, i) == 0,
    decreases i,
{
    if i > 0 {
        lemma_grid_empty(inputs, bits, 0 + i - 1);
        assert(products_below(inputs, bits, i - 1, 0) == 0);
        assert(pow2((i - 1) as nat) * 0 == 0) by (nonlinear_arith);
    }
}

/// Row `r` is bit `r` of the first factor times the second factor, moved
/// up by `r`: as far as the columns below `i` show of it.
proof fn lemma_row(inputs: Seq<Voltage>, bits: int, r: int, i: int)
    requires
        0 <= r < bits,
        0 <= i,
    ensures
        row(inputs, bits, r, i) == bit_value(inputs[r]) * pow2(r as nat) * word_value(
            inputs,
            bits,
            if i <= r {
                0
            } else if i <= r + bits {
                i - r
            } else {
                bits
            },
        ),
    decreases i,
{
    let a = bit_value(inputs[r]) as int;
    let w = pow2(r as nat) as int;
    if i <= 0 {
        assert(a * w * 0 == 0) by (nonlinear_arith);
    } else {
        lemma_row(inputs, bits, r, i - 1);
        if r <= i - 1 < r + bits {
            let k = i - 1 - r;
            let b = bit_value(inputs[bits + k]) as int;
            let lower = word_value(inputs, bits, k) as int;
            let p = pow2(k as nat) as int;
            lemma_pow2_adds(r as nat, k as nat);
            assert(word_value(inputs, bits, k + 1) == lower + b * p) by {
                assert(b * p == (if inputs[bits + k] == Voltage::High {
                    p
                } else {
                    0
                })) by (nonlinear_arith)
                    requires
                        b == 0 || b == 1,
                        b == 1 <==> inputs[bits + k] == Voltage::High,
                ;
            }
            assert(a * w * lower + (w * p) * (a * b) == a * w * (lower + b * p))
                by (nonlinear_arith);
        } else if i - 1 < r {
            assert(a * w * 0 == 0) by (nonlinear_arith);
        }
    }
}

/// The rows below `r`, over all columns, are the low `r` bits of the first
/// factor times the second factor.
proof fn lemma_grid_rows(inputs: Seq<Voltage>, bits: int, r: int)
    requires
        0 <= r <= bits,
        all_defined(inputs, 0, 3 * bits),
    ensures
        grid(inputs, bits, r, 2 * bits) == word_value(inputs, 0, r) * word_value(
            inputs,
            bits,
            bits,
        ),
    decreases r,
{
    let b = word_value(inputs, bits, bits) as int;
    if r == 0 {
        lemma_grid_empty(inputs, bits, 2 * bits);
        assert(0 * b == 0) by (nonlinear_arith);
    } else {
        lemma_grid_rows(inputs, bits, r - 1);
        lemma_grid_step(inputs, bits, r - 1, 2 * bits);
        lemma_row(inputs, bits, r - 1, 2 * bits);
        let lower = word_value(inputs, 0, r - 1) as int;
        let a = bit_value(inputs[r - 1]) as int;
        let w = pow2((r - 1) as nat) as int;
        assert(word_value(inputs, 0, r) == lower + a * w) by {
            assert(a * w == (if inputs[r - 1] == Voltage::High {
                w
            } else {
                0
            })) by (nonlinear_arith)
                requires
                    a == 0 || a == 1,
                    a == 1 <==> inputs[r - 1] == Voltage::High,
            ;
        }
        assert(lower * b + a * w * b == (lower + a * w) * b) by (nonlinear_arith);
    }
}

/// The low bits of the result, with the carry out of them, make up what
/// the columns below hold: the product bits and the addend bits.
proof fn lemma_multiplier_partial(inputs: Seq<Voltage>, bits: int, i: int)
    requires
        0 <= i <= 2 * bits,
        inputs.len() / 3 == bits,
        all_defined(inputs, 0, 3 * bits),
    ensures
        !multiplier_carry(inputs, bits, i).1,
        all_defined(multiplier_word(inputs), 0, i),
        word_value(multiplier_word(inputs), 0, i) + multiplier_carry(inputs, bits, i).0 * pow2(
            i as nat,
        ) == grid(inputs, bits, bits, i) + word_value(
            inputs,
            2 * bits,
            if i < bits {
                i
            } else {
                bits
            },
        ),
    decreases i,
{
    let word = multiplier_word(inputs);
    if i == 0 {
        lemma2_to64();
        assert(0 * pow2(0) == 0) by (nonlinear_arith);
    } else {
        let j = i - 1;
        lemma_multiplier_partial(inputs, bits, j);
        lemma_products_clean(inputs, bits, j, column_end(bits, j));
        let carry = multiplier_carry(inputs, bits, j).0 as int;
        let products = products_below(inputs, bits, j, bits) as int;
        assert(products == column_products(inputs, bits, j, column_end(bits, j)).0);
        let addend: int = if j < bits {
            bit_value(inputs[2 * bits + j]) as int
        } else {
            0
        };
        if j < bits {
            assert(inputs[2 * bits + j].is_defined());
            assert(addend_bit(inputs[2 * bits + j]) == (addend as nat, false));
        }
        let sum = column(inputs, bits, j).0 as int;
        assert(sum == products + addend);
        assert(!column(inputs, bits, j).1);
        let total = carry + sum;
        assert(word[j] == multiplier_bit(inputs, bits, j));
        assert(word[j] == level(total % 2 == 1));
        assert(multiplier_carry(inputs, bits, i).0 == total / 2);
        assert forall|x: int| 0 <= x < i implies (#[trigger] word[x]).is_defined() by {
            if x < j {
                assert(all_defined(word, 0, j));
            }
        }
        let w = pow2(j as nat) as int;
        lemma_pow2_unfold(i as nat);
        lemma_fundamental_div_mod(total, 2);
        let low = word_value(word, 0, j) as int;
        let bit: int = if total % 2 == 1 {
            1
        } else {
            0
        };
        assert(word_value(word, 0, i) == low + bit * w) by {
            assert(bit * w == (if word[j] == Voltage::High {
                w
            } else {
                0
            })) by (nonlinear_arith)
                requires
                    bit == 0 || bit == 1,
                    bit == 1 <==> word[j] == Voltage::High,
            ;
        }
        assert(low + bit * w + (total / 2) * (2 * w) == low + carry * w + w * products + addend
            * w) by (nonlinear_arith)
            requires
                total == 2 * (total / 2) + bit,
                total == carry + products + addend,
        ;
        if j < bits {
            assert(word_value(inputs, 2 * bits, j + 1) == word_value(inputs, 2 * bits, j) + addend
                * w) by {
                assert(addend * w == (if inputs[2 * bits + j] == Voltage::High {
                    w
                } else {
                    0
                })) by (nonlinear_arith)
                    requires
                        addend == 0 || addend == 1,
                        addend == 1 <==> inputs[2 * bits + j] == Voltage::High,
                ;
            }
        } else {
            assert(addend * w == 0) by (nonlinear_arith)
                requires
                    addend == 0,
            ;
        }
    }
}

/// With logic levels on all inputs, the multiplier drives logic levels that
/// spell the product of the two factors plus the addend. The result never
/// wraps: it fits the outputs driven.
pub proof fn lemma_multiplier_multiplies(inputs: Seq<Voltage>)
    requires
        inputs.len() % 3 == 0,
        all_defined(inputs, 0, inputs.len() as int),
    ensures
        ({
            let bits = (inputs.len() / 3) as int;
            let result = word_value(inputs, 0, bits) * word_value(inputs, bits, bits)
                + word_value(inputs, 2 * bits, bits);
            &&& all_defined(multiplier_word(inputs), 0, 2 * bits)
            &&& word_value(multiplier_word(inputs), 0, 2 * bits) == result
            &&& result < pow2((2 * bits) as nat)
        }),
{
    let bits = (inputs.len() / 3) as int;
    let word = multiplier_word(inputs);
    lemma_multiplier_partial(inputs, bits, 2 * bits);
    lemma_grid_rows(inputs, bits, bits);
    let a = word_value(inputs, 0, bits) as int;
    let b = word_value(inputs, bits, bits) as int;
    let c = word_value(inputs, 2 * bits, bits) as int;
    let p = pow2(bits as nat) as int;
    let q = pow2((2 * bits) as nat) as int;
    lemma_word_bound(inputs, 0, bits);
    lemma_word_bound(inputs, bits, bits);
    lemma_word_bound(inputs, 2 * bits, bits);
    lemma_word_bound(word, 0, 2 * bits);
    lemma_pow2_adds(bits as nat, bits as nat);
    lemma_pow2_pos(bits as nat);
    assert(a * b + c < q) by (nonlinear_arith)
        requires
            0 <= a < p,
            0 <= b < p,
            0 <= c < p,
            q == p * p,
    ;
    let carry = multiplier_carry(inputs, bits, 2 * bits).0 as int;
    let value = word_value(word, 0, 2 * bits) as int;
    assert(carry == 0) by (nonlinear_arith)
        requires
            value + carry * q == a * b + c,
            a * b + c < q,
            0 <= value,
            0 <= carry,
            0 < q,
    {
        assert(carry >= 1 ==> carry * q >= q);
    }
    assert(carry * q == 0) by (nonlinear_arith)
        requires
            carry == 0,
    ;
    assert(value == a * b + c);
}

/// Without an addend, the multiplier drives the product of its factors,
/// modulo two to the number of outputs driven.
pub proof fn lemma_multiplier_product(inputs: Seq<Voltage>)
    requires
        inputs.len() % 3 == 0,
        all_defined(inputs, 0, inputs.len() as int),
        word_value(inputs, 2 * (inputs.len() / 3) as int, (inputs.len() / 3) as int) == 0,
    ensures
        ({
            let bits = (inputs.len() / 3) as int;
            let product = word_value(inputs, 0, bits) * word_value(inputs, bits, bits);
            &&& all_defined(multiplier_word(inputs), 0, 2 * bits)
            &&& word_value(multiplier_word(inputs), 0, 2 * bits) == (product as int) % (pow2(
                (2 * bits) as nat,
            ) as int)
        }),
{
    let bits = (inputs.len() / 3) as int;
    lemma_multiplier_multiplies(inputs);
    let product = word_value(inputs, 0, bits) * word_value(inputs, bits, bits);
    vstd::arithmetic::div_mod::lemma_fundamental_div_mod_converse(
        product as int,
        pow2((2 * bits) as nat) as int,
        0,
        product as int,
    );
}

} // verus!
