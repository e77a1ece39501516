//! Fixed-point weights of items: how strongly an item competes for the prize
//! budget, as a decreasing function of its value.
//!
//! A weight is taken relative to the cheapest item of its list, which has
//! the weight one. The weight that falls with the tickets an item is worth,
//! `1 / (value / ticket_price)^1.5`, is this weight times a factor that all
//! items of a list share, the ticket price and the house edge in it; a
//! shared factor leaves every share as it is. Relative weights neither
//! overflow nor lose their precision, however many tickets an item is worth.

use crate::arith::{
    int_sqrt, isqrt, lemma_int_sqrt_bounds, lemma_int_sqrt_monotone, lemma_int_sqrt_unique,
    lemma_prefix_sum_bounds, lemma_prefix_sum_monotone, prefix_sum, total,
};
use crate::normalize::{lemma_entry_within_total, weight_ints, MAX_TOTAL_WEIGHT};
use vstd::arithmetic::div_mod::*;
use vstd::arithmetic::mul::*;
use vstd::prelude::*;

verus! {

/// One in the fixed-point format of a weight: 60 fraction bits.
pub const WEIGHT_ONE: u128 = 0x1000_0000_0000_0000;

/// Most items of a list whose weights are sure to fit: 2^50.
pub const MAX_WEIGHED_ITEMS: u64 = 0x4_0000_0000_0000;

/// The rule by which an item's value sets its weight.
#[derive(Clone, Copy, Debug, PartialEq, Eq, Structural)]
pub enum WeightStrategy {
    /// The weight is the inverse of the value.
    InverseValue,
    /// The weight is the inverse of the number of tickets that the value is
    /// worth, raised to the power 1.5.
    PowerLaw,
}

/// Whether every value of a list is above zero.
pub open spec fn all_positive(values: Seq<u64>) -> bool {
    forall|i: int| 0 <= i < values.len() ==> #[trigger] values[i] > 0
}

/// The least of the first `count` values of a list; the largest value there
/// is where `count` is zero.
pub open spec fn least_of(values: Seq<u64>, count: int) -> int
    decreases count,
{
    if count <= 0 {
        u64::MAX as int
    } else if values[count - 1] < least_of(values, count - 1) {
        values[count - 1] as int
    } else {
        least_of(values, count - 1)
    }
}

/// The value of the cheapest item of a list.
pub open spec fn least_value(values: Seq<u64>) -> int {
    least_of(values, values.len() as int)
}

/// The value of the cheapest item over the value of an item, with 60
/// fraction bits, rounded down.
pub open spec fn relative_worth(value: int, least: int) -> int {
    (least * WEIGHT_ONE) / value
}

/// `worth^1.5` with 60 fraction bits: the relative worth times its square
/// root, rounded down.
pub open spec fn power_law_weight(value: int, least: int) -> int {
    let worth = relative_worth(value, least);
    (worth * int_sqrt((worth * WEIGHT_ONE) as nat)) / (WEIGHT_ONE as int)
}

/// The weight of an item under a strategy, relative to the cheapest item of
/// its list.
pub open spec fn item_weight(strategy: WeightStrategy, value: int, least: int) -> int {
    match strategy {
        WeightStrategy::InverseValue => relative_worth(value, least),
        WeightStrategy::PowerLaw => power_law_weight(value, least),
    }
}

/// The weights of a list of item values, in the order of the list.
pub open spec fn item_weights(strategy: WeightStrategy, values: Seq<u64>) -> Seq<int> {
    Seq::new(values.len(), |i: int| item_weight(strategy, values[i] as int, least_value(values)))
}

/// The least of the first values is none of them exceeded, and is one of
/// them where there is one.
pub proof fn lemma_least_of(values: Seq<u64>, count: int)
    requires
        0 <= count <= values.len(),
    ensures
        forall|i: int| 0 <= i < count ==> least_of(values, count) <= #[trigger] values[i],
        count >= 1 ==> exists|i: int| 0 <= i < count && #[trigger] values[i] == least_of(values, count),
        least_of(values, count) <= u64::MAX,
    decreases count,
{
    if count > 0 {
        lemma_least_of(values, count - 1);
        if count > 1 {
            let earlier = choose|i: int|
                0 <= i < count - 1 && #[trigger] values[i] == least_of(values, count - 1);
            if !(values[count - 1] < least_of(values, count - 1)) {
                assert(values[earlier] == least_of(values, count));
            }
        }
        if values[count - 1] < least_of(values, count - 1) || count == 1 {
            assert(values[count - 1] == least_of(values, count));
        }
    }
}

/// The relative worth is the value of the cheapest item over the value,
/// rounded down to a multiple of `1 / WEIGHT_ONE`: it brackets
/// `least / value` from below within one unit of its format, and is at most
/// one.
pub proof fn lemma_relative_worth_brackets(value: int, least: int)
    requires
        0 < least <= value,
    ensures
        0 <= relative_worth(value, least) <= WEIGHT_ONE,
        relative_worth(value, least) * value <= least * WEIGHT_ONE,
        least * WEIGHT_ONE < (relative_worth(value, least) + 1) * value,
{
    let numerator = least * WEIGHT_ONE;
    let worth = numerator / value;
    lemma_fundamental_div_mod(numerator, value);
    lemma_mod_bound(numerator, value);
    assert(worth * value <= numerator < (worth + 1) * value) by (nonlinear_arith)
        requires
            numerator == value * worth + numerator % value,
            0 <= numerator % value < value,
    ;
    assert(0 <= numerator <= value * WEIGHT_ONE) by (nonlinear_arith)
        requires
            numerator == least * WEIGHT_ONE,
            0 < least <= value,
    ;
    lemma_div_pos_is_pos(numerator, value);
    lemma_multiply_divide_le(numerator, value, WEIGHT_ONE as int);
}

/// The square root of one, in the format of a weight, is one.
pub proof fn lemma_root_of_one()
    ensures
        int_sqrt((WEIGHT_ONE * WEIGHT_ONE) as nat) == WEIGHT_ONE,
{
    let one = WEIGHT_ONE as nat;
    assert(one * one < (one + 1) * (one + 1)) by (nonlinear_arith);
    lemma_int_sqrt_unique(one * one, one);
}

/// The power-law weight is the relative worth to the power 1.5, rounded
/// down: with `r` the worth, `s` the floor of the square root of
/// `r * WEIGHT_ONE` and `w` the weight, `s` squared brackets `r * WEIGHT_ONE`
/// and `w * WEIGHT_ONE` brackets `r * s`, each from below within one unit.
pub proof fn lemma_power_law_weight_brackets(value: int, least: int)
    requires
        0 < least <= value,
    ensures
        ({
            let r = relative_worth(value, least);
            let s = int_sqrt((r * WEIGHT_ONE) as nat);
            let w = power_law_weight(value, least);
            &&& 0 <= s <= WEIGHT_ONE
            &&& s * s <= r * WEIGHT_ONE < (s + 1) * (s + 1)
            &&& 0 <= w <= WEIGHT_ONE
            &&& w * WEIGHT_ONE <= r * s < (w + 1) * WEIGHT_ONE
        }),
{
    lemma_relative_worth_brackets(value, least);
    let one = WEIGHT_ONE as int;
    let r = relative_worth(value, least);
    assert(0 <= r * one <= one * one) by (nonlinear_arith)
        requires
            0 <= r <= one,
    ;
    lemma_int_sqrt_bounds((r * one) as nat);
    lemma_int_sqrt_monotone((r * one) as nat, (one * one) as nat);
    lemma_root_of_one();
    let s = int_sqrt((r * one) as nat) as int;
    let product = r * s;
    assert(0 <= product <= one * one) by (nonlinear_arith)
        requires
            product == r * s,
            0 <= r <= one,
            0 <= s <= one,
    ;
    let w = product / one;
    lemma_fundamental_div_mod(product, one);
    lemma_mod_bound(product, one);
    assert(w * one <= product < (w + 1) * one) by (nonlinear_arith)
        requires
            product == one * w + product % one,
            0 <= product % one < one,
    ;
    lemma_div_pos_is_pos(product, one);
    lemma_multiply_divide_le(product, one, one);
}

/// Under either strategy a weight lies between zero and one, and the
/// cheapest item has the weight one.
pub proof fn lemma_item_weight_bounds(strategy: WeightStrategy, value: int, least: int)
    requires
        0 < least <= value,
    ensures
        0 <= item_weight(strategy, value, least) <= WEIGHT_ONE,
        value == least ==> item_weight(strategy, value, least) == WEIGHT_ONE,
{
    lemma_relative_worth_brackets(value, least);
    lemma_power_law_weight_brackets(value, least);
    if value == least {
        let one = WEIGHT_ONE as int;
        lemma_mul_is_commutative(least, one);
        lemma_div_by_multiple(one, least);
        assert(relative_worth(value, least) == one);
        lemma_root_of_one();
        lemma_div_by_multiple(one, one);
    }
}

/// Under either strategy a dearer item never has the larger weight.
pub proof fn lemma_item_weight_antitone(
    strategy: WeightStrategy,
    dearer: int,
    cheaper: int,
    least: int,
)
    requires
        0 < least <= cheaper <= dearer,
    ensures
        item_weight(strategy, dearer, least) <= item_weight(strategy, cheaper, least),
{
    let one = WEIGHT_ONE as int;
    lemma_relative_worth_brackets(dearer, least);
    lemma_relative_worth_brackets(cheaper, least);
    assert(0 <= least * one) by (nonlinear_arith)
        requires
            0 < least,
            one > 0,
    ;
    lemma_div_is_ordered_by_denominator(least * one, cheaper, dearer);
    let small = relative_worth(dearer, least);
    let large = relative_worth(cheaper, least);
    assert(0 <= small * one <= large * one) by (nonlinear_arith)
        requires
            0 <= small <= large,
            one > 0,
    ;
    lemma_int_sqrt_monotone((small * one) as nat, (large * one) as nat);
    let small_root = int_sqrt((small * one) as nat);
    let large_root = int_sqrt((large * one) as nat);
    assert(small * small_root <= large * large_root) by (nonlinear_arith)
        requires
            0 <= small <= large,
            0 <= small_root <= large_root,
    ;
    lemma_div_is_ordered(small * small_root, large * large_root, one);
}

/// The weights of a list without a value of zero: none is negative, none is
/// above one, the cheapest item has the weight one, so that the weights do
/// not all vanish, and they add up to at most one for each item.
pub proof fn lemma_item_weights_bounds(strategy: WeightStrategy, values: Seq<u64>)
    requires
        values.len() >= 1,
        all_positive(values),
    ensures
        0 < least_value(values),
        forall|i: int| 0 <= i < values.len() ==> least_value(values) <= #[trigger] values[i],
        forall|i: int|
            0 <= i < values.len() ==> 0 <= #[trigger] item_weights(strategy, values)[i]
                <= WEIGHT_ONE,
        WEIGHT_ONE <= total(item_weights(strategy, values)) <= values.len() * WEIGHT_ONE,
{
    let n = values.len() as int;
    let least = least_value(values);
    let weights = item_weights(strategy, values);
    lemma_least_of(values, n);
    let cheapest = choose|i: int| 0 <= i < n && #[trigger] values[i] == least_of(values, n);
    assert(values[cheapest] > 0);
    assert forall|i: int| 0 <= i < n implies 0 <= #[trigger] weights[i] <= WEIGHT_ONE by {
        assert(least <= values[i]);
        lemma_item_weight_bounds(strategy, values[i] as int, least);
    }
    lemma_item_weight_bounds(strategy, values[cheapest] as int, least);
    assert(weights[cheapest] == WEIGHT_ONE);
    lemma_entry_within_total(weights, cheapest);
    lemma_prefix_sum_bounds(weights, n, 0, WEIGHT_ONE as int);
}

/// A list of at most `MAX_WEIGHED_ITEMS` items has weights that fit.
pub proof fn lemma_item_weights_fit(strategy: WeightStrategy, values: Seq<u64>)
    requires
        1 <= values.len() <= MAX_WEIGHED_ITEMS,
        all_positive(values),
    ensures
        total(item_weights(strategy, values)) <= MAX_TOTAL_WEIGHT,
{
    lemma_item_weights_bounds(strategy, values);
    let n = values.len() as int;
    assert(n * WEIGHT_ONE <= MAX_TOTAL_WEIGHT) by (nonlinear_arith)
        requires
            0 <= n <= 0x4_0000_0000_0000,
            WEIGHT_ONE == 0x1000_0000_0000_0000,
            MAX_TOTAL_WEIGHT == 0x4000_0000_0000_0000_0000_0000_0000,
    ;
}

/// The value of the cheapest item of a list.
pub fn least_value_of(values: &Vec<u64>) -> (least: u64)
    ensures
        least == least_value(values@),
{
    let mut least: u64 = u64::MAX;
    let mut i: usize = 0;
    while i < values.len()
        invariant
            i <= values.len(),
            least == least_of(values@, i as int),
        decreases values.len() - i,
    {
        if values[i] < least {
            least = values[i];
        }
        i = i + 1;
    }
    least
}

/// The weight of one item under a strategy, relative to an item of the
/// value `least`.
pub fn item_weight_of(strategy: WeightStrategy, value: u64, least: u64) -> (weight: u128)
    requires
        0 < least <= value,
    ensures
        weight == item_weight(strategy, value as int, least as int),
        weight <= WEIGHT_ONE,
{
    proof {
        lemma_relative_worth_brackets(value as int, least as int);
        lemma_power_law_weight_brackets(value as int, least as int);
    }
    assert(least * WEIGHT_ONE <= 0xffff_ffff_ffff_ffff * 0x1000_0000_0000_0000)
        by (nonlinear_arith)
        requires
            0 <= least <= 0xffff_ffff_ffff_ffff,
            WEIGHT_ONE == 0x1000_0000_0000_0000,
    ;
    let worth: u128 = (least as u128 * WEIGHT_ONE) / (value as u128);
    match strategy {
        WeightStrategy::InverseValue => worth,
        WeightStrategy::PowerLaw => {
            assert(worth * WEIGHT_ONE <= 0x1000_0000_0000_0000 * 0x1000_0000_0000_0000)
                by (nonlinear_arith)
                requires
                    0 <= worth <= WEIGHT_ONE,
                    WEIGHT_ONE == 0x1000_0000_0000_0000,
            ;
            let root: u128 = isqrt(worth * WEIGHT_ONE);
            assert(worth * root <= 0x1000_0000_0000_0000 * 0x1000_0000_0000_0000)
                by (nonlinear_arith)
                requires
                    0 <= worth <= 0x1000_0000_0000_0000,
                    0 <= root <= 0x1000_0000_0000_0000,
            ;
            (worth * root) / WEIGHT_ONE
        },
    }
}

/// The weights of a list of values, or `None` where they add up to more than
/// the largest total that a list may carry.
pub fn weights_of(strategy: WeightStrategy, values: &Vec<u64>) -> (weights: Option<Vec<u128>>)
    requires
        all_positive(values@),
    ensures
        match weights {
            Some(w) => {
                &&& weight_ints(w@) == item_weights(strategy, values@)
                &&& total(weight_ints(w@)) <= MAX_TOTAL_WEIGHT
            },
            None => total(item_weights(strategy, values@)) > MAX_TOTAL_WEIGHT,
        },
{
    let ghost all = item_weights(strategy, values@);
    let least = least_value_of(values);
    proof {
        if values.len() >= 1 {
            lemma_item_weights_bounds(strategy, values@);
        }
    }
    let mut weights: Vec<u128> = Vec::new();
    let mut sum: u128 = 0;
    let mut i: usize = 0;
    while i < values.len()
        invariant
            i <= values.len(),
            weights.len() == i,
            all_positive(values@),
            least == least_value(values@),
            values.len() >= 1 ==> 0 < least,
            forall|j: int| 0 <= j < values.len() ==> least <= #[trigger] values[j],
            all == item_weights(strategy, values@),
            forall|j: int| 0 <= j < all.len() ==> 0 <= #[trigger] all[j],
            forall|j: int| 0 <= j < i ==> #[trigger] weights[j] as int == all[j],
            sum == prefix_sum(all, i as int),
            sum <= MAX_TOTAL_WEIGHT,
        decreases values.len() - i,
    {
        proof {
            lemma_prefix_sum_monotone(all, i + 1, all.len() as int);
        }
        let weight = item_weight_of(strategy, values[i], least);
        if weight > MAX_TOTAL_WEIGHT - sum {
            return None;
        }
        weights.push(weight);
        sum = sum + weight;
        i = i + 1;
    }
    assert(weight_ints(weights@) =~= all);
    Some(weights)
}

} // verus!
