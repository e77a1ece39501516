//! The selector: from a vector of probabilities and a seed to the index of
//! the winning entry, by a scan over running sums.

use crate::allocation::ProbabilityError;
use crate::arith::{
    lemma_prefix_sum_monotone, lemma_prefix_sum_nonnegative, prefix_sum, total,
};
use crate::normalize::point_ints;
use vstd::prelude::*;

verus! {

/// Sum of all probabilities of a vector.
pub open spec fn total_weight(probabilities: Seq<u32>) -> int {
    total(point_ints(probabilities))
}

/// The draw that a seed stands for: the seed modulo the sum of the
/// probabilities.
pub open spec fn draw_of(probabilities: Seq<u32>, seed: u64) -> int {
    seed as int % total_weight(probabilities)
}

/// `index` wins `draw`: the running sum up to its entry has not passed the
/// draw, and with its entry it has.
pub open spec fn wins(probabilities: Seq<u32>, draw: int, index: int) -> bool {
    &&& 0 <= index < probabilities.len()
    &&& prefix_sum(point_ints(probabilities), index) <= draw
    &&& draw < prefix_sum(point_ints(probabilities), index + 1)
}

/// What the selector returns for a vector of probabilities and a seed.
pub open spec fn selection(probabilities: Seq<u32>, seed: u64) -> Result<int, ProbabilityError> {
    if total_weight(probabilities) == 0 {
        Err(ProbabilityError::NoAvailableItems)
    } else {
        Ok(choose|index: int| wins(probabilities, draw_of(probabilities, seed), index))
    }
}

/// Selection determinism: a draw is won by at most one index, so the same
/// probabilities and the same seed always give the same index.
pub proof fn lemma_winner_is_unique(probabilities: Seq<u32>, draw: int, first: int, second: int)
    requires
        wins(probabilities, draw, first),
        wins(probabilities, draw, second),
    ensures
        first == second,
{
    let points = point_ints(probabilities);
    if first < second {
        lemma_prefix_sum_monotone(points, first + 1, second);
    } else if second < first {
        lemma_prefix_sum_monotone(points, second + 1, first);
    }
}

/// Selection fidelity: of the draws `0 .. total`, an index wins exactly those
/// from the running sum before its entry up to, and not including, that sum
/// with its entry added: as many draws as its probability.
pub proof fn lemma_winning_draws_match_probability(probabilities: Seq<u32>, draw: int, index: int)
    requires
        0 <= index < probabilities.len(),
    ensures
        wins(probabilities, draw, index) <==> {
            let start = prefix_sum(point_ints(probabilities), index);
            start <= draw < start + probabilities[index]
        },
        0 <= prefix_sum(point_ints(probabilities), index),
        prefix_sum(point_ints(probabilities), index) + probabilities[index] <= total_weight(
            probabilities,
        ),
{
    let points = point_ints(probabilities);
    lemma_prefix_sum_nonnegative(points, index);
    lemma_prefix_sum_monotone(points, index + 1, points.len() as int);
}

/// The selector's choice by running sums: where the probabilities add up to
/// `whole` and the seed modulo `whole` lies from the running sum before the
/// entry at `index` up to, and not including, that sum with the entry added,
/// the selector returns `index`.
pub proof fn lemma_selection_by_running_sum(
    probabilities: Seq<u32>,
    seed: u64,
    whole: int,
    index: int,
)
    requires
        whole == total_weight(probabilities),
        whole > 0,
        0 <= index < probabilities.len(),
        prefix_sum(point_ints(probabilities), index) <= seed as int % whole,
        (seed as int % whole) < prefix_sum(point_ints(probabilities), index) + probabilities[index],
    ensures
        selection(probabilities, seed) == Ok::<int, ProbabilityError>(index),
{
    let draw = draw_of(probabilities, seed);
    assert(wins(probabilities, draw, index));
    let chosen = choose|found: int| wins(probabilities, draw, found);
    lemma_winner_is_unique(probabilities, draw, index, chosen);
}

/// The probabilities of a slice added up.
pub fn sum_probabilities(probabilities: &[u32]) -> (sum: u128)
    ensures
        sum == total_weight(probabilities@),
{
    let ghost points = point_ints(probabilities@);
    let mut sum: u128 = 0;
    let mut i: usize = 0;
    while i < probabilities.len()
        invariant
            i <= probabilities.len(),
            points == point_ints(probabilities@),
            sum == prefix_sum(points, i as int),
            sum <= i * 0xffff_ffff,
        decreases probabilities.len() - i,
    {
        assert((i + 1) * 0xffff_ffff == i * 0xffff_ffff + 0xffff_ffff) by (nonlinear_arith);
        sum = sum + probabilities[i] as u128;
        i = i + 1;
    }
    sum
}

/// Selects the winning entry of `probabilities` for `random_seed`.
///
/// The draw is the seed modulo the sum of the probabilities; the winner is
/// the first entry at which the running sum exceeds the draw. Nothing but
/// integer arithmetic decides, and the seed is taken as it is: the caller
/// answers for where it comes from. Probabilities that add up to zero,
/// an empty vector among them, have no winner.
pub fn select_winning_item_index(probabilities: &[u32], random_seed: u64) -> (outcome: Result<
    usize,
    ProbabilityError,
>)
    ensures
        match outcome {
            Ok(index) => {
                &&& total_weight(probabilities@) > 0
                &&& wins(probabilities@, draw_of(probabilities@, random_seed), index as int)
                &&& selection(probabilities@, random_seed) == Ok::<int, ProbabilityError>(
                    index as int,
                )
                &&& probabilities[index as int] > 0
            },
            Err(error) => {
                &&& total_weight(probabilities@) == 0
                &&& error == ProbabilityError::NoAvailableItems
                &&& selection(probabilities@, random_seed) == Err::<int, ProbabilityError>(error)
            },
        },
{
    let ghost points = point_ints(probabilities@);
    let whole = sum_probabilities(probabilities);
    if whole == 0 {
        return Err(ProbabilityError::NoAvailableItems);
    }
    let draw: u128 = random_seed as u128 % whole;
    let mut running: u128 = 0;
    let mut i: usize = 0;
    loop
        invariant
            i < probabilities.len(),
            points == point_ints(probabilities@),
            whole == total(points),
            running == prefix_sum(points, i as int),
            running <= draw < whole,
            draw == draw_of(probabilities@, random_seed),
        decreases probabilities.len() - i,
    {
        proof {
            lemma_prefix_sum_monotone(points, i + 1, points.len() as int);
        }
        running = running + probabilities[i] as u128;
        if draw < running {
            proof {
                let found = choose|index: int|
                    wins(probabilities@, draw_of(probabilities@, random_seed), index);
                assert(wins(probabilities@, draw as int, i as int));
                lemma_winner_is_unique(probabilities@, draw as int, i as int, found);
            }
            return Ok(i);
        }
        i = i + 1;
    }
}

} // verus!
