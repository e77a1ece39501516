//! Turning weights into basis points: shares rounded to nearest, the last
//! entry taking what is left of the total, a floor under every entry, and a
//! bounded number of passes that set entries below the floor aside.

use crate::arith::{
    lemma_prefix_sum_agrees, lemma_prefix_sum_bounds, lemma_prefix_sum_monotone,
    lemma_prefix_sum_nonnegative, lemma_prefix_sum_scaled, lemma_rounded_quotient_cancel,
    lemma_rounded_quotient_monotone, lemma_rounded_quotient_near_floor,
    lemma_rounded_quotient_of_part, prefix_sum, round_div, rounded_quotient, scaled, total,
};
use vstd::arithmetic::div_mod::*;
use vstd::arithmetic::mul::*;
use vstd::prelude::*;

verus! {

/// The whole prize budget: 100.00 % in basis points.
pub const TOTAL_BASIS_POINTS: u32 = 10_000;

/// Largest sum of weights that one list may carry (2^110).
pub const MAX_TOTAL_WEIGHT: u128 = 0x4000_0000_0000_0000_0000_0000_0000;

/// The weights of a list as mathematical integers.
pub open spec fn weight_ints(weights: Seq<u128>) -> Seq<int> {
    Seq::new(weights.len(), |i: int| weights[i] as int)
}

/// Basis-point entries as mathematical integers.
pub open spec fn point_ints(points: Seq<u32>) -> Seq<int> {
    Seq::new(points.len(), |i: int| points[i] as int)
}

/// Weights and floor that a list can be normalized with: at least one entry,
/// no negative weight, and room for the floor under every entry.
pub open spec fn normalizable(weights: Seq<int>, floor: int) -> bool {
    &&& weights.len() >= 1
    &&& 0 <= floor
    &&& weights.len() * floor <= TOTAL_BASIS_POINTS
    &&& forall|i: int| 0 <= i < weights.len() ==> 0 <= #[trigger] weights[i]
}

/// One for each entry that has been set aside at the floor.
pub open spec fn reserved_marks(reserved: Seq<bool>) -> Seq<int> {
    Seq::new(reserved.len(), |i: int| if reserved[i] { 1int } else { 0int })
}

/// The weights still competing for the budget: a reserved entry counts zero.
pub open spec fn free_weights(weights: Seq<int>, reserved: Seq<bool>) -> Seq<int> {
    Seq::new(weights.len(), |i: int| if reserved[i] { 0int } else { weights[i] })
}

/// Basis points left for the entries that are not reserved.
pub open spec fn pass_budget(reserved: Seq<bool>, floor: int) -> int {
    TOTAL_BASIS_POINTS - floor * total(reserved_marks(reserved))
}

/// What one entry is given in a pass: the floor if it is reserved, else its
/// part of the budget in proportion to its weight, rounded to nearest.
pub open spec fn pass_share(
    weights: Seq<int>,
    reserved: Seq<bool>,
    floor: int,
    index: int,
) -> int {
    let free = total(free_weights(weights, reserved));
    if reserved[index] {
        floor
    } else if free == 0 {
        0
    } else {
        rounded_quotient(pass_budget(reserved, floor) * weights[index], free)
    }
}

/// The shares of every entry in a pass, each rounded on its own.
pub open spec fn pass_shares(weights: Seq<int>, reserved: Seq<bool>, floor: int) -> Seq<int> {
    Seq::new(weights.len(), |i: int| pass_share(weights, reserved, floor, i))
}

/// Sum of every entry but the last.
pub open spec fn lead_sum(shares: Seq<int>) -> int {
    prefix_sum(shares, shares.len() - 1)
}

/// The exact-sum rule: the last entry is replaced by what the others leave of
/// the total. This is meant so: the entries then add up exactly, at the
/// price of a bias of the last entry that `lemma_first_pass_discrepancy`
/// bounds by half a basis point for each entry.
pub open spec fn with_remainder_last(shares: Seq<int>) -> Seq<int> {
    shares.update(shares.len() - 1, TOTAL_BASIS_POINTS - lead_sum(shares))
}

/// A pass is accepted when no entry would end below the floor: each entry
/// before the last by its own share, the last by the remainder.
pub open spec fn pass_accepted(shares: Seq<int>, floor: int) -> bool {
    &&& forall|i: int| 0 <= i < shares.len() - 1 ==> floor <= #[trigger] shares[i]
    &&& lead_sum(shares) + floor <= TOTAL_BASIS_POINTS
}

/// After a rejected pass every entry that fell below the floor is reserved.
pub open spec fn reserve_below_floor(
    reserved: Seq<bool>,
    shares: Seq<int>,
    floor: int,
) -> Seq<bool> {
    Seq::new(
        reserved.len(),
        |i: int|
            reserved[i] || if i < shares.len() - 1 {
                shares[i] < floor
            } else {
                lead_sum(shares) + floor > TOTAL_BASIS_POINTS
            },
    )
}

/// What an entry is given when the passes are used up: the floor, and on top
/// of it a part of the rest in proportion to its weight, rounded down.
pub open spec fn fallback_share(weights: Seq<int>, floor: int, index: int) -> int {
    let whole = total(weights);
    let spare = TOTAL_BASIS_POINTS - weights.len() * floor;
    if whole == 0 {
        floor
    } else {
        floor + (spare * weights[index]) / whole
    }
}

/// The one-step allocation used when the passes are used up.
pub open spec fn fallback_shares(weights: Seq<int>, floor: int) -> Seq<int> {
    with_remainder_last(Seq::new(weights.len(), |i: int| fallback_share(weights, floor, i)))
}

/// The allocation reached from a given set of reserved entries with a given
/// number of passes left.
pub open spec fn settle(
    weights: Seq<int>,
    floor: int,
    reserved: Seq<bool>,
    passes: nat,
) -> Seq<int>
    decreases passes,
{
    let shares = pass_shares(weights, reserved, floor);
    if passes == 0 {
        fallback_shares(weights, floor)
    } else if pass_accepted(shares, floor) {
        with_remainder_last(shares)
    } else {
        settle(weights, floor, reserve_below_floor(reserved, shares, floor), (passes - 1) as nat)
    }
}

/// No entry reserved.
pub open spec fn none_reserved(count: nat) -> Seq<bool> {
    Seq::new(count, |i: int| false)
}

/// The basis points that `weights` are normalized to under `floor`, with at
/// most `passes` passes before the one-step allocation is used.
pub open spec fn normalized(weights: Seq<int>, floor: int, passes: nat) -> Seq<int> {
    settle(weights, floor, none_reserved(weights.len()), passes)
}

/// After the exact-sum rule the entries add up to the total, and every entry
/// but the last is as it was.
pub proof fn lemma_remainder_last_total(shares: Seq<int>)
    requires
        shares.len() >= 1,
    ensures
        with_remainder_last(shares).len() == shares.len(),
        total(with_remainder_last(shares)) == TOTAL_BASIS_POINTS,
        forall|i: int|
            0 <= i < shares.len() - 1 ==> #[trigger] with_remainder_last(shares)[i] == shares[i],
        with_remainder_last(shares)[shares.len() - 1] == TOTAL_BASIS_POINTS - lead_sum(shares),
{
    let fixed = with_remainder_last(shares);
    lemma_prefix_sum_agrees(fixed, shares, shares.len() - 1);
}

/// No single non-negative entry exceeds the sum of all.
pub proof fn lemma_entry_within_total(values: Seq<int>, index: int)
    requires
        0 <= index < values.len(),
        forall|i: int| 0 <= i < values.len() ==> 0 <= #[trigger] values[i],
    ensures
        values[index] <= total(values),
{
    lemma_prefix_sum_nonnegative(values, index);
    lemma_prefix_sum_monotone(values, index + 1, values.len() as int);
}

/// The reserved entries are at most as many as there are entries, so the
/// budget of a pass is never negative and never above the total.
pub proof fn lemma_pass_budget_bounds(count: nat, reserved: Seq<bool>, floor: int)
    requires
        reserved.len() == count,
        0 <= floor,
        count * floor <= TOTAL_BASIS_POINTS,
    ensures
        0 <= total(reserved_marks(reserved)) <= count,
        0 <= pass_budget(reserved, floor) <= TOTAL_BASIS_POINTS,
{
    let marks = reserved_marks(reserved);
    lemma_prefix_sum_bounds(marks, count as int, 0, 1);
    let taken = total(marks);
    assert(count * 0 == 0 && count * 1 == count) by (nonlinear_arith);
    assert(0 <= floor * taken <= count * floor) by (nonlinear_arith)
        requires
            0 <= taken <= count,
            0 <= floor,
    ;
}

/// The free weights never add up to more than all the weights.
pub proof fn lemma_free_total_bounds(weights: Seq<int>, reserved: Seq<bool>, count: int)
    requires
        reserved.len() == weights.len(),
        0 <= count <= weights.len(),
        forall|i: int| 0 <= i < weights.len() ==> 0 <= #[trigger] weights[i],
    ensures
        0 <= prefix_sum(free_weights(weights, reserved), count) <= prefix_sum(weights, count),
    decreases count,
{
    if count > 0 {
        lemma_free_total_bounds(weights, reserved, count - 1);
    }
}

/// Every share of a pass lies between zero and the total.
pub proof fn lemma_pass_share_bounds(
    weights: Seq<int>,
    reserved: Seq<bool>,
    floor: int,
    index: int,
)
    requires
        normalizable(weights, floor),
        reserved.len() == weights.len(),
        0 <= index < weights.len(),
    ensures
        0 <= pass_share(weights, reserved, floor, index) <= TOTAL_BASIS_POINTS,
{
    let free_seq = free_weights(weights, reserved);
    let free = total(free_seq);
    let budget = pass_budget(reserved, floor);
    lemma_pass_budget_bounds(weights.len(), reserved, floor);
    if reserved[index] {
        assert(floor <= weights.len() * floor) by (nonlinear_arith)
            requires
                weights.len() >= 1,
                0 <= floor,
        ;
    } else if free != 0 {
        assert forall|i: int| 0 <= i < free_seq.len() implies 0 <= #[trigger] free_seq[i] by {
            assert(0 <= weights[i]);
        }
        lemma_entry_within_total(free_seq, index);
        lemma_prefix_sum_nonnegative(free_seq, free_seq.len() as int);
        lemma_rounded_quotient_of_part(budget, weights[index], free);
    }
}

/// Rounded down, the proportional parts of `spare` never add up to more
/// than `spare` times the weight they stand for.
proof fn lemma_floored_parts_within_spare(weights: Seq<int>, spare: int, whole: int, count: int)
    requires
        0 <= count <= weights.len(),
        0 <= spare,
        0 < whole,
        forall|i: int| 0 <= i < weights.len() ==> 0 <= #[trigger] weights[i],
    ensures
        0 <= prefix_sum(Seq::new(weights.len(), |i: int| (spare * weights[i]) / whole), count),
        whole * prefix_sum(Seq::new(weights.len(), |i: int| (spare * weights[i]) / whole), count)
            <= spare * prefix_sum(weights, count),
    decreases count,
{
    let parts = Seq::new(weights.len(), |i: int| (spare * weights[i]) / whole);
    if count > 0 {
        lemma_floored_parts_within_spare(weights, spare, whole, count - 1);
        let x = spare * weights[count - 1];
        assert(0 <= weights[count - 1]);
        assert(0 <= x) by (nonlinear_arith)
            requires
                x == spare * weights[count - 1],
                0 <= spare,
                0 <= weights[count - 1],
        ;
        lemma_fundamental_div_mod(x, whole);
        lemma_div_pos_is_pos(x, whole);
        let before = prefix_sum(parts, count - 1);
        let part = x / whole;
        assert(parts[count - 1] == part);
        assert(whole * part <= x);
        assert(whole * (before + part) == whole * before + whole * part) by (nonlinear_arith);
        assert(spare * (prefix_sum(weights, count - 1) + weights[count - 1]) == spare * prefix_sum(
            weights,
            count - 1,
        ) + x) by (nonlinear_arith)
            requires
                x == spare * weights[count - 1],
        ;
    } else {
        assert(whole * 0 == 0 && spare * 0 == 0) by (nonlinear_arith);
    }
}

/// The one-step allocation keeps every entry at or above the floor and adds
/// up to the total.
pub proof fn lemma_fallback_shares(weights: Seq<int>, floor: int)
    requires
        normalizable(weights, floor),
    ensures
        fallback_shares(weights, floor).len() == weights.len(),
        total(fallback_shares(weights, floor)) == TOTAL_BASIS_POINTS,
        forall|i: int|
            0 <= i < weights.len() ==> floor <= #[trigger] fallback_shares(weights, floor)[i],
        forall|i: int|
            0 <= i < weights.len() - 1 ==> #[trigger] fallback_shares(weights, floor)[i]
                == fallback_share(weights, floor, i),
        forall|i: int|
            0 <= i < weights.len() ==> floor <= #[trigger] fallback_share(weights, floor, i)
                <= TOTAL_BASIS_POINTS,
{
    let n = weights.len() as int;
    let whole = total(weights);
    let spare = TOTAL_BASIS_POINTS - n * floor;
    let base = Seq::new(weights.len(), |i: int| fallback_share(weights, floor, i));
    lemma_remainder_last_total(base);
    lemma_prefix_sum_nonnegative(weights, n);
    let parts = Seq::new(weights.len(), |i: int| (spare * weights[i]) / whole);
    let lead_parts = if whole == 0 {
        0
    } else {
        prefix_sum(parts, n - 1)
    };
    // each entry is the floor plus its part
    if whole == 0 {
        lemma_prefix_sum_bounds(base, n - 1, floor, floor);
    } else {
        lemma_floored_parts_within_spare(weights, spare, whole, n - 1);
        lemma_prefix_sum_monotone(weights, n - 1, n);
        assert(lead_parts <= spare) by (nonlinear_arith)
            requires
                whole * lead_parts <= spare * prefix_sum(weights, n - 1),
                0 <= prefix_sum(weights, n - 1) <= whole,
                0 < whole,
                0 <= spare,
        ;
        lemma_fallback_lead(weights, floor, n - 1);
    }
    assert((n - 1) * floor == n * floor - floor) by (nonlinear_arith);
    assert(lead_sum(base) + floor <= TOTAL_BASIS_POINTS);
    assert forall|i: int| 0 <= i < weights.len() implies floor <= #[trigger] fallback_share(
        weights,
        floor,
        i,
    ) <= TOTAL_BASIS_POINTS by {
        assert(floor <= n * floor) by (nonlinear_arith)
            requires
                n >= 1,
                0 <= floor,
        ;
        if whole != 0 {
            let x = spare * weights[i];
            assert(0 <= weights[i]);
            lemma_entry_within_total(weights, i);
            assert(0 <= x <= spare * whole) by (nonlinear_arith)
                requires
                    x == spare * weights[i],
                    0 <= spare,
                    0 <= weights[i] <= whole,
            ;
            lemma_div_pos_is_pos(x, whole);
            lemma_div_is_ordered(x, spare * whole, whole);
            lemma_div_by_multiple(spare, whole);
        }
    }
}

/// The entries before `count` of the one-step allocation add up to `count`
/// floors and their rounded-down parts.
proof fn lemma_fallback_lead(weights: Seq<int>, floor: int, count: int)
    requires
        0 <= count <= weights.len(),
        total(weights) != 0,
    ensures
        prefix_sum(Seq::new(weights.len(), |i: int| fallback_share(weights, floor, i)), count)
            == count * floor + prefix_sum(
            Seq::new(
                weights.len(),
                |i: int|
                    ((TOTAL_BASIS_POINTS - weights.len() * floor) * weights[i]) / total(weights),
            ),
            count,
        ),
    decreases count,
{
    if count > 0 {
        lemma_fallback_lead(weights, floor, count - 1);
        assert((count - 1) * floor + floor == count * floor) by (nonlinear_arith);
    } else {
        assert(count * floor == 0) by (nonlinear_arith)
            requires
                count == 0,
        ;
    }
}

/// Whatever was reserved and however many passes are left, the allocation
/// has one entry per weight, adds up to the total, and keeps every entry
/// between the floor and the total.
pub proof fn lemma_settle_sums(weights: Seq<int>, floor: int, reserved: Seq<bool>, passes: nat)
    requires
        normalizable(weights, floor),
        reserved.len() == weights.len(),
    ensures
        settle(weights, floor, reserved, passes).len() == weights.len(),
        total(settle(weights, floor, reserved, passes)) == TOTAL_BASIS_POINTS,
        forall|i: int|
            0 <= i < weights.len() ==> floor <= #[trigger] settle(
                weights,
                floor,
                reserved,
                passes,
            )[i] <= TOTAL_BASIS_POINTS,
    decreases passes,
{
    let shares = pass_shares(weights, reserved, floor);
    let result = settle(weights, floor, reserved, passes);
    if passes == 0 {
        lemma_fallback_shares(weights, floor);
    } else if pass_accepted(shares, floor) {
        lemma_remainder_last_total(shares);
    } else {
        lemma_settle_sums(
            weights,
            floor,
            reserve_below_floor(reserved, shares, floor),
            (passes - 1) as nat,
        );
    }
    assert forall|i: int| 0 <= i < weights.len() implies floor <= #[trigger] result[i]
        <= TOTAL_BASIS_POINTS by {
        assert forall|j: int| 0 <= j < result.len() implies 0 <= #[trigger] result[j] by {}
        lemma_entry_within_total(result, i);
    }
}

/// A list of one entry is normalized to the whole total, whatever its
/// weight, the floor and the number of passes.
pub proof fn lemma_single_entry_takes_all(weights: Seq<int>, floor: int, passes: nat)
    requires
        normalizable(weights, floor),
        weights.len() == 1,
    ensures
        normalized(weights, floor, passes) == seq![TOTAL_BASIS_POINTS as int],
{
    let reserved = none_reserved(1);
    let shares = pass_shares(weights, reserved, floor);
    lemma_settle_sums(weights, floor, reserved, passes);
    let result = normalized(weights, floor, passes);
    assert(total(result) == prefix_sum(result, 0) + result[0]);
    assert(result =~= seq![TOTAL_BASIS_POINTS as int]);
}

/// Among the entries before the last, reserving goes by weight: where an
/// entry is reserved, so is every entry of no greater weight.
pub open spec fn reserved_by_weight(weights: Seq<int>, reserved: Seq<bool>) -> bool {
    forall|i: int, j: int|
        0 <= i < weights.len() - 1 && 0 <= j < weights.len() - 1 && weights[i] <= weights[j]
            && #[trigger] reserved[j] ==> #[trigger] reserved[i]
}

/// Within one pass, of two entries before the last the one of no greater
/// weight has no greater share.
pub proof fn lemma_pass_share_monotone(
    weights: Seq<int>,
    reserved: Seq<bool>,
    floor: int,
    lighter: int,
    heavier: int,
)
    requires
        normalizable(weights, floor),
        reserved.len() == weights.len(),
        0 <= lighter < weights.len(),
        0 <= heavier < weights.len(),
        weights[lighter] <= weights[heavier],
        !reserved[lighter],
        !reserved[heavier],
    ensures
        pass_share(weights, reserved, floor, lighter) <= pass_share(
            weights,
            reserved,
            floor,
            heavier,
        ),
{
    let free_seq = free_weights(weights, reserved);
    let free = total(free_seq);
    let budget = pass_budget(reserved, floor);
    lemma_pass_budget_bounds(weights.len(), reserved, floor);
    if free != 0 {
        assert forall|i: int| 0 <= i < free_seq.len() implies 0 <= #[trigger] free_seq[i] by {
            assert(0 <= weights[i]);
        }
        lemma_prefix_sum_nonnegative(free_seq, free_seq.len() as int);
        lemma_mul_inequality(weights[lighter], weights[heavier], budget);
        lemma_mul_is_commutative(budget, weights[lighter]);
        lemma_mul_is_commutative(budget, weights[heavier]);
        lemma_rounded_quotient_monotone(
            budget * weights[lighter],
            budget * weights[heavier],
            free,
        );
    }
}

/// Of two entries before the last, the one of no greater weight has no
/// greater part in the one-step allocation.
pub proof fn lemma_fallback_share_monotone(
    weights: Seq<int>,
    floor: int,
    lighter: int,
    heavier: int,
)
    requires
        normalizable(weights, floor),
        0 <= lighter < weights.len(),
        0 <= heavier < weights.len(),
        weights[lighter] <= weights[heavier],
    ensures
        fallback_share(weights, floor, lighter) <= fallback_share(weights, floor, heavier),
{
    let whole = total(weights);
    let spare = TOTAL_BASIS_POINTS - weights.len() * floor;
    if whole != 0 {
        lemma_prefix_sum_nonnegative(weights, weights.len() as int);
        lemma_mul_inequality(weights[lighter], weights[heavier], spare);
        lemma_mul_is_commutative(spare, weights[lighter]);
        lemma_mul_is_commutative(spare, weights[heavier]);
        lemma_div_is_ordered(spare * weights[lighter], spare * weights[heavier], whole);
    }
}

/// From reservations that go by weight, the allocation keeps the order of
/// the weights among the entries before the last.
pub proof fn lemma_settle_monotone(
    weights: Seq<int>,
    floor: int,
    reserved: Seq<bool>,
    passes: nat,
    lighter: int,
    heavier: int,
)
    requires
        normalizable(weights, floor),
        reserved.len() == weights.len(),
        reserved_by_weight(weights, reserved),
        0 <= lighter < weights.len() - 1,
        0 <= heavier < weights.len() - 1,
        weights[lighter] <= weights[heavier],
    ensures
        settle(weights, floor, reserved, passes)[lighter] <= settle(
            weights,
            floor,
            reserved,
            passes,
        )[heavier],
    decreases passes,
{
    let shares = pass_shares(weights, reserved, floor);
    if passes == 0 {
        lemma_fallback_shares(weights, floor);
        lemma_fallback_share_monotone(weights, floor, lighter, heavier);
    } else if pass_accepted(shares, floor) {
        lemma_remainder_last_total(shares);
        if reserved[heavier] {
            assert(reserved[lighter]);
        } else if reserved[lighter] {
            assert(floor <= shares[heavier]);
        } else {
            lemma_pass_share_monotone(weights, reserved, floor, lighter, heavier);
        }
    } else {
        let next = reserve_below_floor(reserved, shares, floor);
        assert forall|i: int, j: int|
            0 <= i < weights.len() - 1 && 0 <= j < weights.len() - 1 && weights[i] <= weights[j]
                && #[trigger] next[j] implies #[trigger] next[i] by {
            if reserved[j] {
                assert(reserved[i]);
            } else if !reserved[i] {
                lemma_pass_share_monotone(weights, reserved, floor, i, j);
                assert(shares[j] < floor);
                assert(shares[i] < floor);
            }
        }
        lemma_settle_monotone(weights, floor, next, (passes - 1) as nat, lighter, heavier);
    }
}

/// Normalisation keeps the order of the weights among the entries before the
/// last: an entry of no greater weight gets no more basis points.
pub proof fn lemma_normalized_monotone(
    weights: Seq<int>,
    floor: int,
    passes: nat,
    lighter: int,
    heavier: int,
)
    requires
        normalizable(weights, floor),
        0 <= lighter < weights.len() - 1,
        0 <= heavier < weights.len() - 1,
        weights[lighter] <= weights[heavier],
    ensures
        normalized(weights, floor, passes)[lighter] <= normalized(weights, floor, passes)[heavier],
{
    lemma_settle_monotone(
        weights,
        floor,
        none_reserved(weights.len()),
        passes,
        lighter,
        heavier,
    );
}

/// Rounded to nearest, the proportional parts of `scale` add up to the
/// exact parts within half a unit for each of them.
proof fn lemma_rounded_parts_near_scale(weights: Seq<int>, scale: int, whole: int, count: int)
    requires
        0 <= count <= weights.len(),
        0 <= scale,
        0 < whole,
        forall|i: int| 0 <= i < weights.len() ==> 0 <= #[trigger] weights[i],
    ensures
        2 * scale * prefix_sum(weights, count) - count * whole <= 2 * whole * prefix_sum(
            Seq::new(weights.len(), |i: int| rounded_quotient(scale * weights[i], whole)),
            count,
        ) <= 2 * scale * prefix_sum(weights, count) + count * whole,
    decreases count,
{
    let parts = Seq::new(weights.len(), |i: int| rounded_quotient(scale * weights[i], whole));
    if count > 0 {
        lemma_rounded_parts_near_scale(weights, scale, whole, count - 1);
        let x = scale * weights[count - 1];
        let part = rounded_quotient(x, whole);
        assert(parts[count - 1] == part);
        lemma_fundamental_div_mod(2 * x + whole, 2 * whole);
        lemma_mod_bound(2 * x + whole, 2 * whole);
        let before = prefix_sum(parts, count - 1);
        let weight_before = prefix_sum(weights, count - 1);
        assert(2 * x - whole <= 2 * whole * part <= 2 * x + whole) by (nonlinear_arith)
            requires
                2 * x + whole == (2 * whole) * part + (2 * x + whole) % (2 * whole),
                0 <= (2 * x + whole) % (2 * whole) < 2 * whole,
        ;
        assert(2 * whole * (before + part) == 2 * whole * before + 2 * whole * part)
            by (nonlinear_arith);
        assert(2 * scale * (weight_before + weights[count - 1]) == 2 * scale * weight_before + 2
            * x) by (nonlinear_arith)
            requires
                x == scale * weights[count - 1],
        ;
        assert((count - 1) * whole + whole == count * whole) by (nonlinear_arith);
    } else {
        assert(2 * scale * 0 == 0 && 2 * whole * 0 == 0 && count * whole == 0) by (nonlinear_arith)
            requires
                count == 0,
        ;
    }
}

/// The bias of the remainder: where the weights do not all vanish, the
/// shares of the first pass, each rounded on its own, miss the total by at
/// most half a basis point for each entry. This is as far as the remainder
/// that the last entry takes can lie from the share that rounding alone
/// would give it.
pub proof fn lemma_first_pass_discrepancy(weights: Seq<int>, floor: int)
    requires
        normalizable(weights, floor),
        total(weights) > 0,
    ensures
        -(weights.len() as int) <= 2 * (total(
            pass_shares(weights, none_reserved(weights.len()), floor),
        ) - TOTAL_BASIS_POINTS) <= weights.len(),
        with_remainder_last(pass_shares(weights, none_reserved(weights.len()), floor))[weights.len()
            - 1] - pass_shares(weights, none_reserved(weights.len()), floor)[weights.len() - 1]
            == TOTAL_BASIS_POINTS - total(
            pass_shares(weights, none_reserved(weights.len()), floor),
        ),
{
    let n = weights.len() as int;
    let whole = total(weights);
    let reserved = none_reserved(weights.len());
    let shares = pass_shares(weights, reserved, floor);
    lemma_prefix_sum_bounds(reserved_marks(reserved), n, 0, 0);
    assert(n * 0 == 0) by (nonlinear_arith);
    assert(pass_budget(reserved, floor) == TOTAL_BASIS_POINTS) by (nonlinear_arith)
        requires
            pass_budget(reserved, floor) == TOTAL_BASIS_POINTS - floor * total(
                reserved_marks(reserved),
            ),
            total(reserved_marks(reserved)) == 0,
    ;
    assert(free_weights(weights, reserved) =~= weights);
    let parts = Seq::new(
        weights.len(),
        |i: int| rounded_quotient(TOTAL_BASIS_POINTS * weights[i], whole),
    );
    assert(shares =~= parts);
    lemma_rounded_parts_near_scale(weights, TOTAL_BASIS_POINTS as int, whole, n);
    let sum = total(shares);
    assert(-n <= 2 * (sum - TOTAL_BASIS_POINTS) <= n) by (nonlinear_arith)
        requires
            2 * 10_000 * whole - n * whole <= 2 * whole * sum <= 2 * 10_000 * whole + n * whole,
            whole > 0,
            TOTAL_BASIS_POINTS == 10_000,
    ;
    lemma_remainder_last_total(shares);
}

/// Where the shares of the first pass, each rounded on its own, add up to
/// exactly the total and none of them is below the floor, the remainder that
/// the last entry takes is its own share, and the order of the weights is
/// kept among all entries, the last among them.
pub proof fn lemma_normalized_monotone_without_discrepancy(
    weights: Seq<int>,
    floor: int,
    passes: nat,
    lighter: int,
    heavier: int,
)
    requires
        normalizable(weights, floor),
        passes >= 1,
        0 <= lighter < weights.len(),
        0 <= heavier < weights.len(),
        weights[lighter] <= weights[heavier],
        total(pass_shares(weights, none_reserved(weights.len()), floor)) == TOTAL_BASIS_POINTS,
        forall|i: int|
            0 <= i < weights.len() ==> floor <= #[trigger] pass_shares(
                weights,
                none_reserved(weights.len()),
                floor,
            )[i],
    ensures
        normalized(weights, floor, passes) == pass_shares(
            weights,
            none_reserved(weights.len()),
            floor,
        ),
        normalized(weights, floor, passes)[lighter] <= normalized(weights, floor, passes)[heavier],
{
    let reserved = none_reserved(weights.len());
    let shares = pass_shares(weights, reserved, floor);
    let last = weights.len() - 1;
    assert(total(shares) == lead_sum(shares) + shares[last]);
    assert(floor <= shares[last]);
    assert(pass_accepted(shares, floor));
    lemma_remainder_last_total(shares);
    assert(with_remainder_last(shares) =~= shares);
    lemma_pass_share_monotone(weights, reserved, floor, lighter, heavier);
}

/// A factor that all weights share leaves the shares of a pass as they are.
pub proof fn lemma_pass_shares_scale(
    weights: Seq<int>,
    factor: int,
    reserved: Seq<bool>,
    floor: int,
)
    requires
        normalizable(weights, floor),
        reserved.len() == weights.len(),
        factor > 0,
    ensures
        pass_shares(scaled(weights, factor), reserved, floor) == pass_shares(
            weights,
            reserved,
            floor,
        ),
{
    let n = weights.len() as int;
    let larger = scaled(weights, factor);
    let free_seq = free_weights(weights, reserved);
    let free = total(free_seq);
    let budget = pass_budget(reserved, floor);
    lemma_pass_budget_bounds(weights.len(), reserved, floor);
    assert(free_weights(larger, reserved) =~= scaled(free_seq, factor)) by {
        assert forall|i: int| 0 <= i < n implies #[trigger] free_weights(larger, reserved)[i]
            == scaled(free_seq, factor)[i] by {
            if reserved[i] {
                assert(factor * 0 == 0) by (nonlinear_arith);
            }
        }
    }
    lemma_prefix_sum_scaled(free_seq, factor, n);
    assert forall|i: int| 0 <= i < free_seq.len() implies 0 <= #[trigger] free_seq[i] by {
        assert(0 <= weights[i]);
    }
    lemma_prefix_sum_nonnegative(free_seq, n);
    assert forall|i: int| 0 <= i < n implies #[trigger] pass_share(larger, reserved, floor, i)
        == pass_share(weights, reserved, floor, i) by {
        if !reserved[i] {
            if free == 0 {
                assert(factor * free == 0) by (nonlinear_arith)
                    requires
                        free == 0,
                ;
            } else {
                let part = budget * weights[i];
                assert(0 <= weights[i]);
                assert(0 <= part && budget * (factor * weights[i]) == part * factor && factor
                    * free == free * factor && factor * free != 0) by (nonlinear_arith)
                    requires
                        part == budget * weights[i],
                        0 <= budget,
                        0 <= weights[i],
                        0 < factor,
                        0 < free,
                ;
                lemma_rounded_quotient_cancel(part, free, factor);
            }
        }
    }
    assert(pass_shares(larger, reserved, floor) =~= pass_shares(weights, reserved, floor));
}

/// A factor that all weights share leaves the one-step allocation as it is.
pub proof fn lemma_fallback_shares_scale(weights: Seq<int>, factor: int, floor: int)
    requires
        normalizable(weights, floor),
        factor > 0,
    ensures
        fallback_shares(scaled(weights, factor), floor) == fallback_shares(weights, floor),
{
    let n = weights.len() as int;
    let larger = scaled(weights, factor);
    let whole = total(weights);
    let spare = TOTAL_BASIS_POINTS - n * floor;
    lemma_prefix_sum_scaled(weights, factor, n);
    lemma_prefix_sum_nonnegative(weights, n);
    let base = Seq::new(weights.len(), |i: int| fallback_share(weights, floor, i));
    let larger_base = Seq::new(larger.len(), |i: int| fallback_share(larger, floor, i));
    assert forall|i: int| 0 <= i < n implies #[trigger] larger_base[i] == base[i] by {
        if whole == 0 {
            assert(factor * whole == 0) by (nonlinear_arith)
                requires
                    whole == 0,
            ;
        } else {
            let part = spare * weights[i];
            assert(0 <= weights[i]);
            assert(0 <= part && spare * (factor * weights[i]) == factor * part && factor * whole
                != 0) by (nonlinear_arith)
                requires
                    part == spare * weights[i],
                    0 <= spare,
                    0 <= weights[i],
                    0 < factor,
                    0 < whole,
            ;
            lemma_div_multiples_vanish_quotient(factor, part, whole);
        }
    }
    assert(larger_base =~= base);
}

/// A factor that all weights share leaves the allocation as it is, from
/// whatever was reserved and however many passes are left.
pub proof fn lemma_settle_scale(
    weights: Seq<int>,
    factor: int,
    floor: int,
    reserved: Seq<bool>,
    passes: nat,
)
    requires
        normalizable(weights, floor),
        reserved.len() == weights.len(),
        factor > 0,
    ensures
        settle(scaled(weights, factor), floor, reserved, passes) == settle(
            weights,
            floor,
            reserved,
            passes,
        ),
    decreases passes,
{
    let shares = pass_shares(weights, reserved, floor);
    lemma_pass_shares_scale(weights, factor, reserved, floor);
    if passes == 0 {
        lemma_fallback_shares_scale(weights, factor, floor);
    } else if !pass_accepted(shares, floor) {
        lemma_settle_scale(
            weights,
            factor,
            floor,
            reserve_below_floor(reserved, shares, floor),
            (passes - 1) as nat,
        );
    }
}

/// Scale invariance: a factor above zero that all weights of a list share
/// leaves every share as it is. So it is with the ticket price and the house
/// edge in the weight `1 / (value / ticket_price)^1.5` of an item: the
/// shares are those of the weights relative to the cheapest item.
pub proof fn lemma_normalized_scale_invariant(
    weights: Seq<int>,
    factor: int,
    floor: int,
    passes: nat,
)
    requires
        normalizable(weights, floor),
        factor > 0,
    ensures
        normalized(scaled(weights, factor), floor, passes) == normalized(weights, floor, passes),
{
    assert(scaled(weights, factor).len() == weights.len());
    lemma_settle_scale(weights, factor, floor, none_reserved(weights.len()), passes);
}

/// Equal positive weights: where the even share rounded to nearest leaves
/// the last entry at or above the floor, every entry before the last gets
/// exactly that share, which is the even share rounded down or one more, and
/// the last entry takes the whole difference to the total.
pub proof fn lemma_equal_weights_share_evenly(weights: Seq<int>, floor: int, passes: nat)
    requires
        normalizable(weights, floor),
        passes >= 1,
        weights[0] > 0,
        forall|i: int| 0 <= i < weights.len() ==> #[trigger] weights[i] == weights[0],
        (weights.len() - 1) * rounded_quotient(TOTAL_BASIS_POINTS as int, weights.len() as int)
            + floor <= TOTAL_BASIS_POINTS,
    ensures
        forall|i: int|
            0 <= i < weights.len() - 1 ==> #[trigger] normalized(weights, floor, passes)[i]
                == rounded_quotient(TOTAL_BASIS_POINTS as int, weights.len() as int),
        normalized(weights, floor, passes)[weights.len() - 1] == TOTAL_BASIS_POINTS - (
        weights.len() - 1) * rounded_quotient(TOTAL_BASIS_POINTS as int, weights.len() as int),
        TOTAL_BASIS_POINTS as int / weights.len() as int <= rounded_quotient(
            TOTAL_BASIS_POINTS as int,
            weights.len() as int,
        ) <= TOTAL_BASIS_POINTS as int / weights.len() as int + 1,
{
    let n = weights.len() as int;
    let each = weights[0];
    let even = rounded_quotient(TOTAL_BASIS_POINTS as int, n);
    let reserved = none_reserved(weights.len());
    let shares = pass_shares(weights, reserved, floor);
    lemma_rounded_quotient_near_floor(TOTAL_BASIS_POINTS as int, n);
    // nothing is reserved: the whole total is shared out over all weights
    lemma_prefix_sum_bounds(reserved_marks(reserved), n, 0, 0);
    assert(n * 0 == 0) by (nonlinear_arith);
    assert(pass_budget(reserved, floor) == TOTAL_BASIS_POINTS) by (nonlinear_arith)
        requires
            pass_budget(reserved, floor) == TOTAL_BASIS_POINTS - floor * total(
                reserved_marks(reserved),
            ),
            total(reserved_marks(reserved)) == 0,
    ;
    assert(free_weights(weights, reserved) =~= weights);
    lemma_prefix_sum_bounds(weights, n, each, each);
    let whole = total(weights);
    assert(whole == each * n) by (nonlinear_arith)
        requires
            n * each <= whole <= n * each,
    ;
    assert(whole > 0) by (nonlinear_arith)
        requires
            whole == each * n,
            each > 0,
            n >= 1,
    ;
    lemma_rounded_quotient_cancel(TOTAL_BASIS_POINTS as int, n, each);
    assert(TOTAL_BASIS_POINTS * each == each * TOTAL_BASIS_POINTS) by (nonlinear_arith);
    assert(n * each == each * n) by (nonlinear_arith);
    assert forall|i: int| 0 <= i < n implies #[trigger] shares[i] == even by {
        assert(weights[i] == each);
    }
    lemma_prefix_sum_bounds(shares, n - 1, even, even);
    assert(lead_sum(shares) == (n - 1) * even);
    // the floor is at most the even share rounded down
    lemma_div_is_ordered(n * floor, TOTAL_BASIS_POINTS as int, n);
    lemma_mul_is_commutative(n, floor);
    lemma_div_by_multiple(floor, n);
    assert(pass_accepted(shares, floor));
    lemma_remainder_last_total(shares);
}

/// Sum of all weights of a list.
pub fn sum_weights(weights: &Vec<u128>) -> (sum: u128)
    requires
        total(weight_ints(weights@)) <= MAX_TOTAL_WEIGHT,
    ensures
        sum == total(weight_ints(weights@)),
{
    let ghost all = weight_ints(weights@);
    let mut sum: u128 = 0;
    let mut i: usize = 0;
    while i < weights.len()
        invariant
            i <= weights.len(),
            all == weight_ints(weights@),
            sum == prefix_sum(all, i as int),
            total(all) <= MAX_TOTAL_WEIGHT,
        decreases weights.len() - i,
    {
        proof {
            lemma_prefix_sum_monotone(all, i + 1, all.len() as int);
        }
        sum = sum + weights[i];
        i = i + 1;
    }
    sum
}

/// Sum of the weights that are not reserved, and the number of entries that are.
fn free_weight_and_reserved_count(weights: &Vec<u128>, reserved: &Vec<bool>) -> (found: (
    u128,
    usize,
))
    requires
        reserved.len() == weights.len(),
        total(weight_ints(weights@)) <= MAX_TOTAL_WEIGHT,
    ensures
        found.0 == total(free_weights(weight_ints(weights@), reserved@)),
        found.1 == total(reserved_marks(reserved@)),
        found.0 <= MAX_TOTAL_WEIGHT,
        found.1 <= weights.len(),
{
    let ghost all = weight_ints(weights@);
    let ghost free_seq = free_weights(all, reserved@);
    let ghost marks = reserved_marks(reserved@);
    let mut free: u128 = 0;
    let mut count: usize = 0;
    let mut i: usize = 0;
    while i < weights.len()
        invariant
            i <= weights.len(),
            reserved.len() == weights.len(),
            all == weight_ints(weights@),
            free_seq == free_weights(all, reserved@),
            marks == reserved_marks(reserved@),
            free == prefix_sum(free_seq, i as int),
            count == prefix_sum(marks, i as int),
            count <= i,
            total(all) <= MAX_TOTAL_WEIGHT,
        decreases weights.len() - i,
    {
        proof {
            lemma_free_total_bounds(all, reserved@, i + 1);
            lemma_prefix_sum_monotone(all, i + 1, all.len() as int);
        }
        if reserved[i] {
            count = count + 1;
        } else {
            free = free + weights[i];
        }
        i = i + 1;
    }
    proof {
        lemma_free_total_bounds(all, reserved@, all.len() as int);
    }
    (free, count)
}

/// The shares of one pass, each rounded on its own.
fn shares_of_pass(weights: &Vec<u128>, reserved: &Vec<bool>, floor: u32) -> (shares: Vec<u32>)
    requires
        normalizable(weight_ints(weights@), floor as int),
        reserved.len() == weights.len(),
        total(weight_ints(weights@)) <= MAX_TOTAL_WEIGHT,
    ensures
        point_ints(shares@) == pass_shares(weight_ints(weights@), reserved@, floor as int),
        shares.len() == weights.len(),
{
    let ghost all = weight_ints(weights@);
    let (free, count) = free_weight_and_reserved_count(weights, reserved);
    proof {
        lemma_pass_budget_bounds(weights.len() as nat, reserved@, floor as int);
        assert(floor * count == (floor as int) * total(reserved_marks(reserved@)));
    }
    let budget: u128 = TOTAL_BASIS_POINTS as u128 - (floor as u128) * (count as u128);
    let mut shares: Vec<u32> = Vec::new();
    let mut i: usize = 0;
    while i < weights.len()
        invariant
            i <= weights.len(),
            shares.len() == i,
            reserved.len() == weights.len(),
            all == weight_ints(weights@),
            normalizable(all, floor as int),
            free == total(free_weights(all, reserved@)),
            budget == pass_budget(reserved@, floor as int),
            budget <= TOTAL_BASIS_POINTS,
            free <= MAX_TOTAL_WEIGHT,
            total(all) <= MAX_TOTAL_WEIGHT,
            forall|j: int|
                0 <= j < i ==> #[trigger] shares[j] as int == pass_share(
                    all,
                    reserved@,
                    floor as int,
                    j,
                ),
        decreases weights.len() - i,
    {
        proof {
            lemma_pass_share_bounds(all, reserved@, floor as int, i as int);
            lemma_entry_within_total(all, i as int);
        }
        let share: u32 = if reserved[i] {
            floor
        } else if free == 0 {
            0
        } else {
            let weight = weights[i];
            assert(budget * weight <= 10_000 * 0x4000_0000_0000_0000_0000_0000_0000)
                by (nonlinear_arith)
                requires
                    0 <= budget <= 10_000,
                    0 <= weight <= 0x4000_0000_0000_0000_0000_0000_0000,
            ;
            round_div(budget * weight, free) as u32
        };
        shares.push(share);
        i = i + 1;
    }
    assert(point_ints(shares@) =~= pass_shares(all, reserved@, floor as int));
    shares
}

/// Sum of every entry but the last.
fn lead_total(shares: &Vec<u32>) -> (sum: u128)
    requires
        shares.len() >= 1,
    ensures
        sum == lead_sum(point_ints(shares@)),
        sum <= shares.len() * 0xffff_ffff,
{
    let ghost all = point_ints(shares@);
    let mut sum: u128 = 0;
    let mut i: usize = 0;
    let last: usize = shares.len() - 1;
    while i < last
        invariant
            i <= last,
            last == shares.len() - 1,
            all == point_ints(shares@),
            sum == prefix_sum(all, i as int),
            sum <= i * 0xffff_ffff,
        decreases last - i,
    {
        assert((i + 1) * 0xffff_ffff == i * 0xffff_ffff + 0xffff_ffff) by (nonlinear_arith);
        sum = sum + shares[i] as u128;
        i = i + 1;
    }
    sum
}

/// Whether every entry before the last is at or above the floor.
fn floor_holds_before_last(shares: &Vec<u32>, floor: u32) -> (holds: bool)
    requires
        shares.len() >= 1,
    ensures
        holds == (forall|i: int|
            0 <= i < shares.len() - 1 ==> floor as int <= #[trigger] point_ints(shares@)[i]),
{
    let mut i: usize = 0;
    let last: usize = shares.len() - 1;
    while i < last
        invariant
            i <= last,
            last == shares.len() - 1,
            forall|j: int| 0 <= j < i ==> floor as int <= #[trigger] point_ints(shares@)[j],
        decreases last - i,
    {
        if shares[i] < floor {
            assert(point_ints(shares@)[i as int] < floor);
            return false;
        }
        i = i + 1;
    }
    true
}

/// The one-step allocation: the floor for every entry, the rest shared out
/// in proportion and rounded down, the last entry taking the remainder.
fn fallback_allocation(weights: &Vec<u128>, floor: u32) -> (points: Vec<u32>)
    requires
        normalizable(weight_ints(weights@), floor as int),
        total(weight_ints(weights@)) <= MAX_TOTAL_WEIGHT,
    ensures
        point_ints(points@) == fallback_shares(weight_ints(weights@), floor as int),
{
    let ghost all = weight_ints(weights@);
    let count = weights.len();
    let whole = sum_weights(weights);
    let spare: u128 = TOTAL_BASIS_POINTS as u128 - (count as u128) * (floor as u128);
    let mut points: Vec<u32> = Vec::new();
    let mut i: usize = 0;
    proof {
        lemma_fallback_shares(all, floor as int);
    }
    while i < count
        invariant
            i <= count,
            count == weights.len(),
            points.len() == i,
            all == weight_ints(weights@),
            normalizable(all, floor as int),
            whole == total(all),
            whole <= MAX_TOTAL_WEIGHT,
            spare == TOTAL_BASIS_POINTS - count * floor,
            forall|j: int|
                0 <= j < count ==> floor as int <= #[trigger] fallback_share(all, floor as int, j)
                    <= TOTAL_BASIS_POINTS,
            forall|j: int|
                0 <= j < i ==> #[trigger] points[j] as int == fallback_share(
                    all,
                    floor as int,
                    j,
                ),
        decreases count - i,
    {
        proof {
            lemma_entry_within_total(all, i as int);
        }
        assert(floor as int <= fallback_share(all, floor as int, i as int) <= TOTAL_BASIS_POINTS);
        let share: u32 = if whole == 0 {
            floor
        } else {
            let weight = weights[i];
            assert(spare * weight <= 10_000 * 0x4000_0000_0000_0000_0000_0000_0000)
                by (nonlinear_arith)
                requires
                    0 <= spare <= 10_000,
                    0 <= weight <= 0x4000_0000_0000_0000_0000_0000_0000,
            ;
            (floor as u128 + (spare * weight) / whole) as u32
        };
        points.push(share);
        i = i + 1;
    }
    let ghost base = Seq::new(all.len(), |j: int| fallback_share(all, floor as int, j));
    assert(point_ints(points@) =~= base);
    let lead = lead_total(&points);
    proof {
        lemma_remainder_last_total(base);
        assert(fallback_shares(all, floor as int)[count - 1] == TOTAL_BASIS_POINTS - lead);
    }
    points.set(count - 1, (TOTAL_BASIS_POINTS as u128 - lead) as u32);
    assert(point_ints(points@) =~= with_remainder_last(base));
    points
}

/// A list of reservations for `count` entries, none of them reserved.
fn nothing_reserved(count: usize) -> (reserved: Vec<bool>)
    ensures
        reserved@ == none_reserved(count as nat),
{
    let mut reserved: Vec<bool> = Vec::new();
    let mut k: usize = 0;
    while k < count
        invariant
            k <= count,
            reserved.len() == k,
            forall|j: int| 0 <= j < k ==> !#[trigger] reserved[j],
        decreases count - k,
    {
        reserved.push(false);
        k = k + 1;
    }
    assert(reserved@ =~= none_reserved(count as nat));
    reserved
}

/// Sum of all entries of a list of basis points.
pub fn sum_points(points: &Vec<u32>) -> (sum: u128)
    ensures
        sum == total(point_ints(points@)),
        sum <= points.len() * 0xffff_ffff,
{
    let ghost all = point_ints(points@);
    let mut sum: u128 = 0;
    let mut i: usize = 0;
    while i < points.len()
        invariant
            i <= points.len(),
            all == point_ints(points@),
            sum == prefix_sum(all, i as int),
            sum <= i * 0xffff_ffff,
        decreases points.len() - i,
    {
        assert((i + 1) * 0xffff_ffff == i * 0xffff_ffff + 0xffff_ffff) by (nonlinear_arith);
        sum = sum + points[i] as u128;
        i = i + 1;
    }
    sum
}

/// What the shares of the first pass add up to, each rounded on its own and
/// before the last entry is made to take the remainder.
pub fn unadjusted_total(weights: &Vec<u128>, floor: u32) -> (sum: u128)
    requires
        normalizable(weight_ints(weights@), floor as int),
        total(weight_ints(weights@)) <= MAX_TOTAL_WEIGHT,
    ensures
        sum == total(
            pass_shares(weight_ints(weights@), none_reserved(weights@.len()), floor as int),
        ),
{
    let count = weights.len();
    let reserved = nothing_reserved(count);
    let shares = shares_of_pass(weights, &reserved, floor);
    sum_points(&shares)
}

/// Normalizes `weights` to basis points: every entry but the last gets its
/// proportional share rounded to nearest, the last takes what is left of
/// 10 000. A pass that would leave an entry below `floor` is rejected, the
/// entries below the floor are reserved at the floor, and the rest is shared
/// out again among the others; after `passes` passes the one-step allocation
/// is used, which always respects the floor.
pub fn normalize_probabilities(weights: &Vec<u128>, floor: u32, passes: u32) -> (points: Vec<u32>)
    requires
        normalizable(weight_ints(weights@), floor as int),
        total(weight_ints(weights@)) <= MAX_TOTAL_WEIGHT,
    ensures
        point_ints(points@) == normalized(weight_ints(weights@), floor as int, passes as nat),
        points.len() == weights.len(),
        total(point_ints(points@)) == TOTAL_BASIS_POINTS,
        forall|i: int| 0 <= i < points.len() ==> floor <= #[trigger] points[i] <= TOTAL_BASIS_POINTS,
{
    let ghost all = weight_ints(weights@);
    let count = weights.len();
    let mut reserved = nothing_reserved(count);
    let mut left: u32 = passes;
    proof {
        lemma_settle_sums(all, floor as int, reserved@, left as nat);
    }
    while left > 0
        invariant
            count == weights.len(),
            reserved.len() == count,
            all == weight_ints(weights@),
            normalizable(all, floor as int),
            total(all) <= MAX_TOTAL_WEIGHT,
            settle(all, floor as int, reserved@, left as nat) == normalized(
                all,
                floor as int,
                passes as nat,
            ),
        decreases left,
    {
        let mut shares = shares_of_pass(weights, &reserved, floor);
        let ghost plain = pass_shares(all, reserved@, floor as int);
        let lead = lead_total(&shares);
        let floors_hold = floor_holds_before_last(&shares, floor);
        proof {
            lemma_settle_sums(all, floor as int, reserved@, left as nat);
            lemma_remainder_last_total(plain);
        }
        if floors_hold && lead + floor as u128 <= TOTAL_BASIS_POINTS as u128 {
            assert(pass_accepted(plain, floor as int));
            shares.set(count - 1, (TOTAL_BASIS_POINTS as u128 - lead) as u32);
            assert(point_ints(shares@) =~= with_remainder_last(plain));
            assert forall|i: int| 0 <= i < shares.len() implies floor <= #[trigger] shares[i]
                <= TOTAL_BASIS_POINTS by {
                assert(point_ints(shares@)[i] == shares[i]);
            }
            return shares;
        }
        assert(!pass_accepted(plain, floor as int));
        let ghost before = reserved@;
        let mut i: usize = 0;
        while i < count
            invariant
                i <= count,
                count == shares.len(),
                count >= 1,
                reserved.len() == count,
                before.len() == count,
                plain == point_ints(shares@),
                lead == lead_sum(plain),
                lead <= count * 0xffff_ffff,
                forall|j: int|
                    0 <= j < i ==> #[trigger] reserved[j] == reserve_below_floor(
                        before,
                        plain,
                        floor as int,
                    )[j],
                forall|j: int| i <= j < count ==> #[trigger] reserved[j] == before[j],
            decreases count - i,
        {
            let below = if i < count - 1 {
                shares[i] < floor
            } else {
                lead + floor as u128 > TOTAL_BASIS_POINTS as u128
            };
            assert(plain[i as int] == shares[i as int]);
            if below {
                reserved.set(i, true);
            }
            i = i + 1;
        }
        assert(reserved@ =~= reserve_below_floor(before, plain, floor as int));
        left = left - 1;
    }
    let points = fallback_allocation(weights, floor);
    proof {
        lemma_settle_sums(all, floor as int, reserved@, 0);
        assert forall|i: int| 0 <= i < points.len() implies floor <= #[trigger] points[i]
            <= TOTAL_BASIS_POINTS by {
            assert(point_ints(points@)[i] == points[i]);
        }
    }
    points
}

} // verus!
