//! Numbers of double precision, by their bits.

use vstd::arithmetic::power2::{lemma_pow2_pos, pow2};
use vstd::prelude::*;

use crate::machine::Val;

verus! {

/// The biased exponent of a number.
pub open spec fn exponent(bits: u64) -> int {
    (bits as int / 0x10_0000_0000_0000) % 0x800
}

/// The fraction of a number.
pub open spec fn fraction(bits: u64) -> int {
    bits as int % 0x10_0000_0000_0000
}

/// Whether the bits are those of no number at all.
pub open spec fn is_nan(bits: u64) -> bool {
    exponent(bits) == 0x7ff && fraction(bits) != 0
}

/// The significand of a finite number, with its sign.
pub open spec fn significand(bits: u64) -> int {
    let magnitude = if exponent(bits) == 0 {
        fraction(bits)
    } else {
        fraction(bits) + 0x10_0000_0000_0000
    };
    if bits < 0x8000_0000_0000_0000 {
        magnitude
    } else {
        -magnitude
    }
}

/// The power of two that the significand of a finite number is multiplied by.
pub open spec fn scale(bits: u64) -> int {
    (if exponent(bits) == 0 {
        1
    } else {
        exponent(bits)
    }) - 1075
}

/// Whether the value of a number is the given integer.
pub open spec fn has_value(bits: u64, value: int) -> bool {
    &&& exponent(bits) != 0x7ff
    &&& if scale(bits) >= 0 {
        value == significand(bits) * pow2(scale(bits) as nat)
    } else {
        value * pow2((-scale(bits)) as nat) == significand(bits)
    }
}

/// The key that a number is in a table: an integer if its value is one that can be held, else
/// itself; what is no number is no key.
pub open spec fn number_key(bits: u64) -> Option<Val> {
    if is_nan(bits) {
        None
    } else if exists|i: i64| has_value(bits, i as int) {
        Some(Val::Integer(choose|i: i64| has_value(bits, i as int)))
    } else {
        Some(Val::Number(bits))
    }
}

/// A number whose value is an integer that can be held is the same key as that integer. Every other
/// number is a key of its own, but for what is no number, which is no key.
pub proof fn law_number_key(bits: u64)
    ensures
        number_key(bits) is None <==> is_nan(bits),
        forall|i: i64| #[trigger]
            has_value(bits, i as int) ==> number_key(bits) == Some(Val::Integer(i)),
        !is_nan(bits) && (forall|i: i64| !#[trigger] has_value(bits, i as int)) ==> number_key(bits)
            == Some(Val::Number(bits)),
{
    assert forall|i: i64| #[trigger] has_value(bits, i as int) implies number_key(bits) == Some(
        Val::Integer(i),
    ) by {
        let j = choose|j: i64| has_value(bits, j as int);
        lemma_one_value(bits, i as int, j as int);
    }
}

proof fn lemma_one_value(bits: u64, i: int, j: int)
    requires
        has_value(bits, i),
        has_value(bits, j),
    ensures
        i == j,
{
    if scale(bits) < 0 {
        let unit = pow2((-scale(bits)) as nat) as int;
        lemma_pow2_pos((-scale(bits)) as nat);
        assert(i == j) by (nonlinear_arith)
            requires
                i * unit == j * unit,
                unit > 0,
        ;
    }
}

} // verus!
