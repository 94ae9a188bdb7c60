//! The algorithm selector as an automatable parameter: the mapping between
//! a normalized position from 0 to 1.0 and the ordinal of a variant.
//!
//! A position `v` selects the ordinal `round(v * count)`, limited to the
//! last ordinal; the ordinal `i` lies at the position `i / count`. At every
//! position exactly one ordinal is selected.
//!
//! A host places the variants of such a parameter evenly with the last one
//! at 1.0: over `count - 1` steps. `host_ordinal` and `host_normalized` are
//! that mapping.

use crate::algorithms::{DistortionAlgorithm, ALGORITHM_COUNT};
use crate::fixed::{clamp, clamp_spec, ONE};
use vstd::arithmetic::div_mod::{
    lemma_div_is_ordered, lemma_div_multiples_vanish, lemma_fundamental_div_mod, lemma_mod_bound,
};
use vstd::prelude::*;

verus! {

/// The ordinal that the position `v` selects among `count` variants:
/// `round(v * count)` with halves rounded up, limited to the last ordinal.
/// A position outside 0 to 1.0 counts as the nearer end.
pub open spec fn ordinal_spec(v: int, count: int) -> int {
    let inside = clamp_spec(v, 0, ONE as int);
    clamp_spec((2 * inside * count + ONE) / (2 * ONE), 0, count - 1)
}

/// The position of the ordinal `ordinal` among `count` variants:
/// `ordinal / count`, rounded down to the next billionth.
pub open spec fn normalized_spec(ordinal: int, count: int) -> int {
    (ordinal * ONE) / count
}

/// Whether the position `v` selects `ordinal` among `count` variants. At
/// every position exactly one ordinal is selected.
pub open spec fn is_selected_spec(v: int, ordinal: int, count: int) -> bool {
    count >= 1 && ordinal_spec(v, count) == ordinal
}

/// Whether the position `v` lies less than half a step from the position
/// of `ordinal`: `|v * count - ordinal| < 0.5`.
pub open spec fn is_near_spec(v: int, ordinal: int, count: int) -> bool {
    -(ONE as int) < 2 * (v * count - ordinal * ONE) < ONE
}

/// The ordinal that a host reads from the normalized value `v` of a
/// parameter with `steps` steps, which lies at `ordinal / steps`:
/// `round(v * steps)` with halves rounded up. A value outside 0 to 1.0
/// counts as the nearer end.
pub open spec fn host_ordinal_spec(v: int, steps: int) -> int {
    let inside = clamp_spec(v, 0, ONE as int);
    clamp_spec((2 * inside * steps + ONE) / (2 * ONE), 0, steps)
}

/// The normalized value at which a host reads the ordinal `ordinal` of a
/// parameter with `steps` steps: `ordinal / steps`, rounded down to the
/// next billionth, the last ordinal at 1.0. An ordinal above the last
/// counts as the last, and a parameter without steps lies at 0.
pub open spec fn host_normalized_spec(ordinal: int, steps: int) -> int {
    if steps <= 0 {
        0
    } else {
        (clamp_spec(ordinal, 0, steps) * ONE) / steps
    }
}

/// The ordinal that the position `v` selects among `count` variants.
pub fn ordinal_of(v: i64, count: usize) -> (ordinal: usize)
    requires
        count >= 1,
    ensures
        ordinal == ordinal_spec(v as int, count as int),
        ordinal < count,
{
    let inside: u128 = clamp(v, 0, ONE) as u128;
    let wide: u128 = count as u128;
    proof {
        assert(0 <= inside * wide <= 1_000_000_000 * 0x1_0000_0000_0000_0000) by (nonlinear_arith)
            requires
                0 <= inside <= 1_000_000_000,
                0 <= wide < 0x1_0000_0000_0000_0000,
        ;
        assert(2 * inside * wide == 2 * (inside * wide)) by (nonlinear_arith);
        lemma_div_is_ordered(0, 2 * (inside * wide) + ONE, 2 * ONE);
    }
    let rounded: u128 = (2 * (inside * wide) + 1_000_000_000) / 2_000_000_000;
    if rounded >= wide {
        count - 1
    } else {
        rounded as usize
    }
}

/// The position of the ordinal `ordinal` among `count` variants.
pub fn normalized_of(ordinal: usize, count: usize) -> (v: i64)
    requires
        ordinal < count,
    ensures
        v == normalized_spec(ordinal as int, count as int),
        0 <= v < ONE,
{
    let wide: u128 = ordinal as u128;
    proof {
        lemma_div_is_ordered(0, ordinal * ONE, count as int);
        lemma_div_is_ordered(ordinal * ONE, (count - 1) * ONE, count as int);
        let top = ((count - 1) * ONE) / (count as int);
        if top >= ONE {
            lemma_fundamental_div_mod((count - 1) * ONE, count as int);
            lemma_mod_bound((count - 1) * ONE, count as int);
            assert(count * top >= count * ONE) by (nonlinear_arith)
                requires
                    top >= ONE,
                    count > 0,
            ;
            assert((count - 1) * ONE == count * ONE - ONE) by (nonlinear_arith);
        }
    }
    let v: u128 = (wide * 1_000_000_000) / (count as u128);
    v as i64
}

/// Whether the position `v` selects `ordinal` among `count` variants.
pub fn is_selected(v: i64, ordinal: usize, count: usize) -> (selected: bool)
    ensures
        selected == is_selected_spec(v as int, ordinal as int, count as int),
{
    if count == 0 {
        false
    } else {
        ordinal_of(v, count) == ordinal
    }
}

/// The ordinal that a host reads from the normalized value `v` of a
/// parameter with `steps` steps.
pub fn host_ordinal(v: i64, steps: usize) -> (ordinal: usize)
    ensures
        ordinal == host_ordinal_spec(v as int, steps as int),
        ordinal <= steps,
{
    let inside: u128 = clamp(v, 0, ONE) as u128;
    let wide: u128 = steps as u128;
    proof {
        assert(0 <= inside * wide <= 1_000_000_000 * 0x1_0000_0000_0000_0000) by (nonlinear_arith)
            requires
                0 <= inside <= 1_000_000_000,
                0 <= wide < 0x1_0000_0000_0000_0000,
        ;
        assert(2 * inside * wide == 2 * (inside * wide)) by (nonlinear_arith);
        lemma_div_is_ordered(0, 2 * (inside * wide) + ONE, 2 * ONE);
    }
    let rounded: u128 = (2 * (inside * wide) + 1_000_000_000) / 2_000_000_000;
    if rounded >= wide {
        steps
    } else {
        rounded as usize
    }
}

/// The normalized value at which a host reads the ordinal `ordinal` of a
/// parameter with `steps` steps.
pub fn host_normalized(ordinal: usize, steps: usize) -> (v: i64)
    ensures
        v == host_normalized_spec(ordinal as int, steps as int),
        0 <= v <= ONE,
{
    if steps == 0 {
        0
    } else {
        let inside: u128 = if ordinal > steps {
            steps as u128
        } else {
            ordinal as u128
        };
        proof {
            lemma_div_is_ordered(0, inside * ONE, steps as int);
            lemma_div_is_ordered(inside * ONE, steps * ONE, steps as int);
            assert(steps * ONE == steps * (ONE as int));
            lemma_div_multiples_vanish(ONE as int, steps as int);
        }
        let v: u128 = (inside * 1_000_000_000) / (steps as u128);
        v as i64
    }
}

impl DistortionAlgorithm {
    /// The curve that the position `v` of the selector stands for.
    pub fn from_normalized(v: i64) -> (algorithm: DistortionAlgorithm)
        ensures
            algorithm == DistortionAlgorithm::from_index_spec(
                ordinal_spec(v as int, ALGORITHM_COUNT as int),
            ),
    {
        DistortionAlgorithm::from_index(ordinal_of(v, ALGORITHM_COUNT))
    }

    /// The position of the curve on the selector.
    pub fn to_normalized(self) -> (v: i64)
        ensures
            v == normalized_spec(self.index_spec(), ALGORITHM_COUNT as int),
            0 <= v < ONE,
    {
        normalized_of(self.to_index(), ALGORITHM_COUNT)
    }
}

/// A position in the lower half of the step that begins at the position of
/// an ordinal selects that ordinal: for `i / count <= v < (i + 0.5) / count`
/// the ordinal is `i`.
pub proof fn lemma_lower_half_selects(v: int, ordinal: int, count: int)
    requires
        0 <= ordinal < count,
        0 <= v <= ONE,
        ordinal * ONE <= v * count,
        2 * (v * count) < (2 * ordinal + 1) * ONE,
    ensures
        ordinal_spec(v, count) == ordinal,
{
    lemma_round_within(v * count, ordinal);
    assert(2 * v * count == 2 * (v * count)) by (nonlinear_arith);
}

/// Every position from that of the last ordinal on selects the last
/// ordinal: for `(count - 1) / count <= v` the ordinal is `count - 1`.
pub proof fn lemma_last_step_selects(v: int, count: int)
    requires
        1 <= count,
        (count - 1) * ONE <= v * count,
    ensures
        ordinal_spec(v, count) == count - 1,
{
    let inside = clamp_spec(v, 0, ONE as int);
    assert(v >= 0) by (nonlinear_arith)
        requires
            1 <= count,
            (count - 1) * ONE <= v * count,
            ONE == 1_000_000_000,
    ;
    assert((count - 1) * ONE <= inside * count) by (nonlinear_arith)
        requires
            1 <= count,
            (count - 1) * ONE <= v * count,
            inside == if v > ONE { ONE as int } else { v },
            ONE == 1_000_000_000,
    ;
    assert(2 * (inside * count) + ONE >= (2 * ONE) * (count - 1)) by (nonlinear_arith)
        requires
            (count - 1) * ONE <= inside * count,
    ;
    lemma_div_multiples_vanish(count - 1, 2 * ONE);
    lemma_div_is_ordered((2 * ONE) * (count - 1), 2 * (inside * count) + ONE, 2 * ONE);
    assert(2 * inside * count == 2 * (inside * count)) by (nonlinear_arith);
}

/// A position less than half a step from that of an ordinal selects it.
pub proof fn lemma_near_is_selected(v: int, ordinal: int, count: int)
    requires
        0 <= ordinal < count,
        0 <= v <= ONE,
        is_near_spec(v, ordinal, count),
    ensures
        is_selected_spec(v, ordinal, count),
{
    lemma_round_within(v * count, ordinal);
    assert(2 * v * count == 2 * (v * count)) by (nonlinear_arith);
}

/// At every position exactly one of the `count` ordinals is selected: the
/// one that the position stands for, and no other.
pub proof fn lemma_exactly_one_selected(v: int, count: int)
    requires
        count >= 1,
    ensures
        0 <= ordinal_spec(v, count) < count,
        is_selected_spec(v, ordinal_spec(v, count), count),
        forall|ordinal: int| #[trigger]
            is_selected_spec(v, ordinal, count) ==> ordinal == ordinal_spec(v, count),
{
}

/// The value of a host for an ordinal is read as that ordinal again.
pub proof fn lemma_host_round_trip(ordinal: int, steps: int)
    requires
        0 <= ordinal <= steps,
        2 * steps <= ONE,
    ensures
        host_ordinal_spec(host_normalized_spec(ordinal, steps), steps) == ordinal,
        0 <= host_normalized_spec(ordinal, steps) <= ONE,
        steps > 0 ==> host_normalized_spec(steps, steps) == ONE,
{
    if steps > 0 {
        let v = host_normalized_spec(ordinal, steps);
        lemma_fundamental_div_mod(ordinal * ONE, steps);
        lemma_mod_bound(ordinal * ONE, steps);
        lemma_div_is_ordered(0, ordinal * ONE, steps);
        lemma_div_is_ordered(ordinal * ONE, steps * ONE, steps);
        assert(steps * ONE == steps * (ONE as int));
        lemma_div_multiples_vanish(ONE as int, steps);
        assert(v * steps == steps * v) by (nonlinear_arith);
        lemma_round_within(v * steps, ordinal);
        assert(2 * v * steps == 2 * (v * steps)) by (nonlinear_arith);
    }
}

/// The position of an ordinal selects that ordinal again.
pub proof fn lemma_ordinal_round_trip(ordinal: int, count: int)
    requires
        0 <= ordinal < count,
        2 * count <= ONE,
    ensures
        ordinal_spec(normalized_spec(ordinal, count), count) == ordinal,
        0 <= normalized_spec(ordinal, count) < ONE,
{
    let v = normalized_spec(ordinal, count);
    lemma_fundamental_div_mod(ordinal * ONE, count);
    lemma_mod_bound(ordinal * ONE, count);
    lemma_div_is_ordered(0, ordinal * ONE, count);
    assert(v * count == count * v) by (nonlinear_arith);
    assert(v < ONE) by (nonlinear_arith)
        requires
            count * v <= ordinal * ONE,
            0 <= ordinal < count,
            ONE > 0,
    ;
    lemma_round_within(v * count, ordinal);
    assert(2 * v * count == 2 * (v * count)) by (nonlinear_arith);
}

/// A product less than half of 1.0 away from `ordinal` rounds to it.
proof fn lemma_round_within(product: int, ordinal: int)
    requires
        -(ONE as int) < 2 * (product - ordinal * ONE) < ONE,
    ensures
        (2 * product + ONE) / (2 * ONE) == ordinal,
{
    let rest = 2 * product + ONE - (2 * ONE) * ordinal;
    assert(0 <= rest < 2 * ONE) by (nonlinear_arith)
        requires
            rest == 2 * product + ONE - (2 * ONE) * ordinal,
            -(ONE as int) < 2 * (product - ordinal * ONE) < ONE,
    ;
    assert(ordinal * (2 * ONE) == (2 * ONE) * ordinal) by (nonlinear_arith);
    vstd::arithmetic::div_mod::lemma_fundamental_div_mod_converse(
        2 * product + ONE,
        2 * ONE,
        ordinal,
        rest,
    );
}

} // verus!
