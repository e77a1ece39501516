//! The allocator: from item values and a ticket price to basis points that
//! add up to the whole prize budget.

use crate::arith::{
    lemma_prefix_sum_bounds, lemma_rounded_quotient_near_floor, prefix_sum, rounded_quotient,
    total,
};
use crate::normalize::{
    lemma_equal_weights_share_evenly, lemma_first_pass_discrepancy, lemma_normalized_monotone,
    lemma_normalized_monotone_without_discrepancy, lemma_settle_sums,
    lemma_single_entry_takes_all, none_reserved, normalizable, normalize_probabilities,
    normalized, pass_accepted, pass_shares, point_ints, unadjusted_total, weight_ints,
    MAX_TOTAL_WEIGHT, TOTAL_BASIS_POINTS,
};
use crate::weights::{
    all_positive, item_weights, least_value, lemma_item_weight_antitone,
    lemma_item_weight_bounds, lemma_item_weights_bounds, lemma_item_weights_fit, lemma_least_of,
    weights_of, WeightStrategy, MAX_WEIGHED_ITEMS, WEIGHT_ONE,
};
use vstd::arithmetic::div_mod::{lemma_div_is_ordered_by_denominator, lemma_fundamental_div_mod};
use vstd::prelude::*;

verus! {

/// Most passes of re-normalization, and most adjustments of the house edge,
/// before the allocator settles for what it has.
pub const MAX_PASSES: u32 = 5;

/// Step by which the house edge is adjusted, in basis points.
pub const HOUSE_EDGE_STEP: u32 = 100;

/// An item holding more than this many basis points dominates the pool.
pub const DOMINANCE_LIMIT: u32 = 5_000;

/// Why an allocation, a selection or an analysis could not be made.
#[derive(Clone, Copy, Debug, PartialEq, Eq, Structural)]
pub enum ProbabilityError {
    /// The list of items is empty.
    NoItemsProvided,
    /// The ticket price or the value of an item is zero.
    InvalidPrice,
    /// The weights do not fit the fixed-point width. No list of up to
    /// `MAX_WEIGHED_ITEMS` items is refused for this.
    Overflow,
    /// No vector of basis points can meet the policy: its house-edge band is
    /// not a band, or the floors alone would exceed the total.
    InvalidProbabilityCalculation,
    /// The probabilities to select from add up to zero.
    NoAvailableItems,
}

/// What the allocator is configured with.
#[derive(Clone, Copy, Debug, PartialEq, Eq, Structural)]
pub struct AllocationPolicy {
    /// How an item's value sets its weight.
    pub strategy: WeightStrategy,
    /// The floor, in basis points, under the probability of every item.
    pub min_probability: u32,
    /// The house edge that the allocator starts with, in basis points of the
    /// ticket price.
    pub house_edge: u32,
    /// Lower end of the band that the house edge is kept in.
    pub min_house_edge: u32,
    /// Upper end of the band that the house edge is kept in.
    pub max_house_edge: u32,
}

/// The standard policy: power-law weights, a floor of one basis point, and a
/// house edge that starts at 10 % within a band from 5 % to 20 %.
pub open spec fn standard_policy() -> AllocationPolicy {
    AllocationPolicy {
        strategy: WeightStrategy::PowerLaw,
        min_probability: 1,
        house_edge: 1_000,
        min_house_edge: 500,
        max_house_edge: 2_000,
    }
}

impl AllocationPolicy {
    /// The band is a band below 100 %, and the starting edge lies in it.
    pub open spec fn consistent(self) -> bool {
        self.min_house_edge <= self.house_edge <= self.max_house_edge < TOTAL_BASIS_POINTS
    }

    /// The policy can be met by a list of `count` items.
    pub open spec fn feasible(self, count: nat) -> bool {
        self.consistent() && count * self.min_probability <= TOTAL_BASIS_POINTS
    }

    /// Power-law weights, a floor of one basis point, and a house edge that
    /// starts at 10 % within a band from 5 % to 20 %.
    pub fn standard() -> (policy: Self)
        ensures
            policy == standard_policy(),
            policy.consistent(),
    {
        AllocationPolicy {
            strategy: WeightStrategy::PowerLaw,
            min_probability: 1,
            house_edge: 1_000,
            min_house_edge: 500,
            max_house_edge: 2_000,
        }
    }

    /// Whether the policy can be met by a list of `count` items.
    pub fn is_feasible(&self, count: usize) -> (answer: bool)
        ensures
            answer == self.feasible(count as nat),
    {
        assert(count * self.min_probability <= 0xffff_ffff_ffff_ffff * 0xffff_ffff)
            by (nonlinear_arith)
            requires
                0 <= count <= 0xffff_ffff_ffff_ffff,
                0 <= self.min_probability <= 0xffff_ffff,
        ;
        self.min_house_edge <= self.house_edge && self.house_edge <= self.max_house_edge
            && self.max_house_edge < TOTAL_BASIS_POINTS && (count as u128) * (
        self.min_probability as u128) <= TOTAL_BASIS_POINTS as u128
    }
}

/// The basis points of a list of item values under a policy: the weights of
/// the items, normalized under the policy's floor.
pub open spec fn allocated(values: Seq<u64>, policy: AllocationPolicy) -> Seq<int> {
    normalized(
        item_weights(policy.strategy, values),
        policy.min_probability as int,
        MAX_PASSES as nat,
    )
}

/// One item holds more than half of the total.
pub open spec fn dominated(points: Seq<int>) -> bool {
    exists|i: int| 0 <= i < points.len() && #[trigger] points[i] > DOMINANCE_LIMIT
}

/// The shares of the first pass, each rounded on its own, add up to less
/// than the total.
pub open spec fn undersubscribed(weights: Seq<int>, floor: int) -> bool {
    total(pass_shares(weights, none_reserved(weights.len()), floor)) < TOTAL_BASIS_POINTS
}

/// The house edge after one adjustment: a step up, within the band, where
/// one item dominates; else a step down, within the band, where the shares
/// were undersubscribed; else as it is.
pub open spec fn next_house_edge(values: Seq<u64>, policy: AllocationPolicy, house_edge: int) -> int {
    if dominated(allocated(values, policy)) {
        if house_edge + HOUSE_EDGE_STEP <= policy.max_house_edge {
            house_edge + HOUSE_EDGE_STEP
        } else {
            policy.max_house_edge as int
        }
    } else if undersubscribed(
        item_weights(policy.strategy, values),
        policy.min_probability as int,
    ) {
        if house_edge - HOUSE_EDGE_STEP >= policy.min_house_edge {
            house_edge - HOUSE_EDGE_STEP
        } else {
            policy.min_house_edge as int
        }
    } else {
        house_edge
    }
}

/// The house edge that the allocator settles on: it is adjusted until it
/// stays as it is or the rounds are used up. The edge is a factor that all
/// weights of a list share, so it leaves the shares as they are, and they
/// are not worked out again for it.
pub open spec fn settled_house_edge(
    values: Seq<u64>,
    policy: AllocationPolicy,
    house_edge: int,
    rounds: nat,
) -> int
    decreases rounds,
{
    let next = next_house_edge(values, policy, house_edge);
    if rounds == 0 || next == house_edge {
        house_edge
    } else {
        settled_house_edge(values, policy, next, (rounds - 1) as nat)
    }
}

/// The weights of the list add up to more than a list may carry.
pub open spec fn weights_overflow(values: Seq<u64>, policy: AllocationPolicy) -> bool {
    total(item_weights(policy.strategy, values)) > MAX_TOTAL_WEIGHT
}

/// A list that the allocator can serve: at least one item, no value and no
/// price of zero, a policy that the list can meet, and weights that fit.
pub open spec fn allocatable(values: Seq<u64>, ticket_price: u64, policy: AllocationPolicy) -> bool {
    &&& values.len() >= 1
    &&& ticket_price > 0
    &&& all_positive(values)
    &&& policy.feasible(values.len())
    &&& !weights_overflow(values, policy)
}

/// What the allocator returns for a list of item values, a ticket price and
/// a policy.
pub open spec fn allocation(
    values: Seq<u64>,
    ticket_price: u64,
    policy: AllocationPolicy,
) -> Result<Seq<int>, ProbabilityError> {
    if values.len() == 0 {
        Err(ProbabilityError::NoItemsProvided)
    } else if ticket_price == 0 || !all_positive(values) {
        Err(ProbabilityError::InvalidPrice)
    } else if !policy.feasible(values.len()) {
        Err(ProbabilityError::InvalidProbabilityCalculation)
    } else if weights_overflow(values, policy) {
        Err(ProbabilityError::Overflow)
    } else {
        Ok(allocated(values, policy))
    }
}

/// The weights of a list without a value of zero can be normalized under a
/// policy that the list can meet, and do not all vanish.
pub proof fn lemma_weights_normalizable(values: Seq<u64>, policy: AllocationPolicy)
    requires
        values.len() >= 1,
        all_positive(values),
        policy.feasible(values.len()),
    ensures
        normalizable(item_weights(policy.strategy, values), policy.min_probability as int),
        total(item_weights(policy.strategy, values)) > 0,
{
    lemma_item_weights_bounds(policy.strategy, values);
}

/// Served lists: a list of up to `MAX_WEIGHED_ITEMS` items is served
/// whenever it has an item, no value and no price of zero, and a policy that
/// it can meet. Its weights always fit.
pub proof fn lemma_served_lists(values: Seq<u64>, ticket_price: u64, policy: AllocationPolicy)
    requires
        1 <= values.len() <= MAX_WEIGHED_ITEMS,
        ticket_price > 0,
        all_positive(values),
        policy.feasible(values.len()),
    ensures
        allocatable(values, ticket_price, policy),
        allocation(values, ticket_price, policy) == Ok::<Seq<int>, ProbabilityError>(
            allocated(values, policy),
        ),
{
    lemma_item_weights_fit(policy.strategy, values);
}

/// Under the standard policy a list is served if and only if it has from
/// one to 10 000 items, no value of zero, and a ticket price above zero.
pub proof fn lemma_standard_lists_are_served(values: Seq<u64>, ticket_price: u64)
    ensures
        allocatable(values, ticket_price, standard_policy()) <==> 1 <= values.len()
            <= TOTAL_BASIS_POINTS && ticket_price > 0 && all_positive(values),
{
    let policy = standard_policy();
    assert(values.len() * policy.min_probability == values.len()) by (nonlinear_arith)
        requires
            policy.min_probability == 1,
    ;
    if 1 <= values.len() <= TOTAL_BASIS_POINTS && ticket_price > 0 && all_positive(values) {
        lemma_served_lists(values, ticket_price, policy);
    }
}

/// The house edge after one adjustment stays in the band.
pub proof fn lemma_next_house_edge_in_band(
    values: Seq<u64>,
    policy: AllocationPolicy,
    house_edge: int,
)
    requires
        policy.consistent(),
        policy.min_house_edge <= house_edge <= policy.max_house_edge,
    ensures
        policy.min_house_edge <= next_house_edge(values, policy, house_edge)
            <= policy.max_house_edge,
{
}

/// The house edge that the allocator settles on lies in the band.
pub proof fn lemma_settled_house_edge_in_band(
    values: Seq<u64>,
    policy: AllocationPolicy,
    house_edge: int,
    rounds: nat,
)
    requires
        policy.consistent(),
        policy.min_house_edge <= house_edge <= policy.max_house_edge,
    ensures
        policy.min_house_edge <= settled_house_edge(values, policy, house_edge, rounds)
            <= policy.max_house_edge,
    decreases rounds,
{
    let next = next_house_edge(values, policy, house_edge);
    lemma_next_house_edge_in_band(values, policy, house_edge);
    if rounds != 0 && next != house_edge {
        lemma_settled_house_edge_in_band(values, policy, next, (rounds - 1) as nat);
    }
}

/// Exact sum: whenever the allocator can serve a list, it succeeds with one
/// entry per item, the entries add up to exactly 10 000 basis points, and no
/// entry is below the policy's floor.
pub proof fn lemma_allocation_sums_to_total(
    values: Seq<u64>,
    ticket_price: u64,
    policy: AllocationPolicy,
)
    requires
        allocatable(values, ticket_price, policy),
    ensures
        allocation(values, ticket_price, policy) == Ok::<Seq<int>, ProbabilityError>(
            allocated(values, policy),
        ),
        allocated(values, policy).len() == values.len(),
        total(allocated(values, policy)) == TOTAL_BASIS_POINTS,
        forall|i: int|
            0 <= i < values.len() ==> policy.min_probability <= #[trigger] allocated(
                values,
                policy,
            )[i] <= TOTAL_BASIS_POINTS,
{
    lemma_weights_normalizable(values, policy);
    lemma_settle_sums(
        item_weights(policy.strategy, values),
        policy.min_probability as int,
        none_reserved(values.len()),
        MAX_PASSES as nat,
    );
}

/// Single item: a list of one item is allocated the whole 10 000 basis
/// points, whatever its value above zero and the ticket price above zero,
/// under every policy that one item can meet.
pub proof fn lemma_single_item_is_certain(
    values: Seq<u64>,
    ticket_price: u64,
    policy: AllocationPolicy,
)
    requires
        values.len() == 1,
        values[0] > 0,
        ticket_price > 0,
        policy.feasible(1),
    ensures
        allocation(values, ticket_price, policy) == Ok::<Seq<int>, ProbabilityError>(
            seq![TOTAL_BASIS_POINTS as int],
        ),
{
    lemma_served_lists(values, ticket_price, policy);
    lemma_weights_normalizable(values, policy);
    lemma_single_entry_takes_all(
        item_weights(policy.strategy, values),
        policy.min_probability as int,
        MAX_PASSES as nat,
    );
}

/// Items of one value have one weight: the weight one.
pub proof fn lemma_equal_values_have_equal_weights(strategy: WeightStrategy, values: Seq<u64>)
    requires
        values.len() >= 1,
        all_positive(values),
        forall|i: int| 0 <= i < values.len() ==> #[trigger] values[i] == values[0],
    ensures
        forall|i: int|
            0 <= i < values.len() ==> #[trigger] item_weights(strategy, values)[i]
                == WEIGHT_ONE,
{
    lemma_item_weights_bounds(strategy, values);
    let least = least_value(values);
    lemma_least_of(values, values.len() as int);
    assert(least == values[0]);
    assert forall|i: int| 0 <= i < values.len() implies #[trigger] item_weights(
        strategy,
        values,
    )[i] == WEIGHT_ONE by {
        assert(values[i] == values[0]);
        lemma_item_weight_bounds(strategy, values[i] as int, least);
    }
}

/// Equal values, for every list that is served: the items before the last
/// all get the same, and the last item takes the rest of the total.
pub proof fn lemma_equal_values_differ_only_in_last(
    values: Seq<u64>,
    ticket_price: u64,
    policy: AllocationPolicy,
)
    requires
        allocatable(values, ticket_price, policy),
        forall|i: int| 0 <= i < values.len() ==> #[trigger] values[i] == values[0],
    ensures
        forall|i: int, j: int|
            0 <= i < values.len() - 1 && 0 <= j < values.len() - 1 ==> #[trigger] allocated(
                values,
                policy,
            )[i] == #[trigger] allocated(values, policy)[j],
        allocated(values, policy)[values.len() - 1] == TOTAL_BASIS_POINTS - (values.len() - 1)
            * allocated(values, policy)[0],
{
    let n = values.len() as int;
    let weights = item_weights(policy.strategy, values);
    let floor = policy.min_probability as int;
    let points = allocated(values, policy);
    lemma_weights_normalizable(values, policy);
    lemma_equal_values_have_equal_weights(policy.strategy, values);
    lemma_allocation_sums_to_total(values, ticket_price, policy);
    assert forall|i: int, j: int| 0 <= i < n - 1 && 0 <= j < n - 1 implies #[trigger] points[i]
        == #[trigger] points[j] by {
        lemma_normalized_monotone(weights, floor, MAX_PASSES as nat, i, j);
        lemma_normalized_monotone(weights, floor, MAX_PASSES as nat, j, i);
    }
    assert(total(points) == prefix_sum(points, n - 1) + points[n - 1]);
    if n >= 2 {
        lemma_prefix_sum_bounds(points, n - 1, points[0], points[0]);
    } else {
        assert((n - 1) * points[0] == 0) by (nonlinear_arith)
            requires
                n == 1,
        ;
    }
}

/// Equal values: where all items have the same value and the even share
/// rounded to nearest leaves the last item at or above the floor, every item
/// before the last gets exactly the even share rounded to nearest, which is
/// within one basis point of `10000 / n`, and the last item alone takes the
/// difference to the total.
pub proof fn lemma_equal_values_share_evenly(
    values: Seq<u64>,
    ticket_price: u64,
    policy: AllocationPolicy,
)
    requires
        allocatable(values, ticket_price, policy),
        forall|i: int| 0 <= i < values.len() ==> #[trigger] values[i] == values[0],
        (values.len() - 1) * rounded_quotient(TOTAL_BASIS_POINTS as int, values.len() as int)
            + policy.min_probability <= TOTAL_BASIS_POINTS,
    ensures
        forall|i: int|
            0 <= i < values.len() - 1 ==> #[trigger] allocated(values, policy)[i]
                == rounded_quotient(TOTAL_BASIS_POINTS as int, values.len() as int),
        TOTAL_BASIS_POINTS as int / values.len() as int <= rounded_quotient(
            TOTAL_BASIS_POINTS as int,
            values.len() as int,
        ) <= TOTAL_BASIS_POINTS as int / values.len() as int + 1,
        allocated(values, policy)[values.len() - 1] == TOTAL_BASIS_POINTS - (values.len() - 1)
            * rounded_quotient(TOTAL_BASIS_POINTS as int, values.len() as int),
{
    let weights = item_weights(policy.strategy, values);
    lemma_weights_normalizable(values, policy);
    lemma_equal_values_have_equal_weights(policy.strategy, values);
    lemma_equal_weights_share_evenly(weights, policy.min_probability as int, MAX_PASSES as nat);
}

/// Equal values under the standard policy: from one to ten items of one
/// value above zero, at a ticket price above zero, are always served; every
/// item before the last gets the even share rounded to nearest, within one
/// basis point of `10000 / n`, and the last item alone takes the difference
/// to the total.
pub proof fn lemma_equal_values_share_evenly_in_standard_pools(
    values: Seq<u64>,
    ticket_price: u64,
)
    requires
        1 <= values.len() <= 10,
        ticket_price > 0,
        values[0] > 0,
        forall|i: int| 0 <= i < values.len() ==> #[trigger] values[i] == values[0],
    ensures
        allocation(values, ticket_price, standard_policy()) == Ok::<Seq<int>, ProbabilityError>(
            allocated(values, standard_policy()),
        ),
        forall|i: int|
            0 <= i < values.len() - 1 ==> #[trigger] allocated(values, standard_policy())[i]
                == rounded_quotient(TOTAL_BASIS_POINTS as int, values.len() as int),
        TOTAL_BASIS_POINTS as int / values.len() as int <= rounded_quotient(
            TOTAL_BASIS_POINTS as int,
            values.len() as int,
        ) <= TOTAL_BASIS_POINTS as int / values.len() as int + 1,
        allocated(values, standard_policy())[values.len() - 1] == TOTAL_BASIS_POINTS - (
        values.len() - 1) * rounded_quotient(TOTAL_BASIS_POINTS as int, values.len() as int),
{
    let policy = standard_policy();
    lemma_standard_lists_are_served(values, ticket_price);
    // the even share leaves the last item above the floor
    let n = values.len() as int;
    let even = rounded_quotient(TOTAL_BASIS_POINTS as int, n);
    let floored = TOTAL_BASIS_POINTS as int / n;
    lemma_rounded_quotient_near_floor(TOTAL_BASIS_POINTS as int, n);
    lemma_fundamental_div_mod(TOTAL_BASIS_POINTS as int, n);
    lemma_div_is_ordered_by_denominator(TOTAL_BASIS_POINTS as int, n, 10);
    assert((n - 1) * even + 1 <= TOTAL_BASIS_POINTS) by (nonlinear_arith)
        requires
            1 <= n <= 10,
            0 <= even <= floored + 1,
            n * floored <= 10_000,
            floored >= 1_000,
            TOTAL_BASIS_POINTS == 10_000,
    ;
    lemma_equal_values_share_evenly(values, ticket_price, policy);
}

/// Monotonicity: of two items before the last, the dearer one is never
/// allocated more basis points than the cheaper one.
pub proof fn lemma_dearer_item_is_rarer(
    values: Seq<u64>,
    ticket_price: u64,
    policy: AllocationPolicy,
    dearer: int,
    cheaper: int,
)
    requires
        allocatable(values, ticket_price, policy),
        0 <= dearer < values.len() - 1,
        0 <= cheaper < values.len() - 1,
        values[dearer] > values[cheaper],
    ensures
        allocated(values, policy)[dearer] <= allocated(values, policy)[cheaper],
{
    lemma_weights_normalizable(values, policy);
    lemma_item_weights_bounds(policy.strategy, values);
    lemma_item_weight_antitone(
        policy.strategy,
        values[dearer] as int,
        values[cheaper] as int,
        least_value(values),
    );
    lemma_normalized_monotone(
        item_weights(policy.strategy, values),
        policy.min_probability as int,
        MAX_PASSES as nat,
        dearer,
        cheaper,
    );
}

/// Monotonicity without discrepancy: where the shares of the first pass add
/// up to exactly the total on their own and none of them is below the floor,
/// the dearer of any two items, the last among them, is never allocated more
/// basis points than the cheaper one.
pub proof fn lemma_dearer_item_is_rarer_without_discrepancy(
    values: Seq<u64>,
    ticket_price: u64,
    policy: AllocationPolicy,
    dearer: int,
    cheaper: int,
)
    requires
        allocatable(values, ticket_price, policy),
        0 <= dearer < values.len(),
        0 <= cheaper < values.len(),
        values[dearer] > values[cheaper],
        total(
            pass_shares(
                item_weights(policy.strategy, values),
                none_reserved(values.len()),
                policy.min_probability as int,
            ),
        ) == TOTAL_BASIS_POINTS,
        forall|i: int|
            0 <= i < values.len() ==> policy.min_probability <= #[trigger] pass_shares(
                item_weights(policy.strategy, values),
                none_reserved(values.len()),
                policy.min_probability as int,
            )[i],
    ensures
        allocated(values, policy)[dearer] <= allocated(values, policy)[cheaper],
{
    lemma_weights_normalizable(values, policy);
    lemma_item_weights_bounds(policy.strategy, values);
    lemma_item_weight_antitone(
        policy.strategy,
        values[dearer] as int,
        values[cheaper] as int,
        least_value(values),
    );
    lemma_normalized_monotone_without_discrepancy(
        item_weights(policy.strategy, values),
        policy.min_probability as int,
        MAX_PASSES as nat,
        dearer,
        cheaper,
    );
}

/// The bias of the last item: where the first pass is accepted, the basis
/// points of the last item lie within half a basis point for each item of
/// the share that rounding alone would give it.
pub proof fn lemma_last_item_bias(values: Seq<u64>, ticket_price: u64, policy: AllocationPolicy)
    requires
        allocatable(values, ticket_price, policy),
        pass_accepted(
            pass_shares(
                item_weights(policy.strategy, values),
                none_reserved(values.len()),
                policy.min_probability as int,
            ),
            policy.min_probability as int,
        ),
    ensures
        -(values.len() as int) <= 2 * (allocated(values, policy)[values.len() - 1] - pass_shares(
            item_weights(policy.strategy, values),
            none_reserved(values.len()),
            policy.min_probability as int,
        )[values.len() - 1]) <= values.len(),
{
    lemma_weights_normalizable(values, policy);
    lemma_first_pass_discrepancy(
        item_weights(policy.strategy, values),
        policy.min_probability as int,
    );
}

/// Whether a list holds a value of zero.
pub fn has_zero_value(values: &Vec<u64>) -> (answer: bool)
    ensures
        answer == !all_positive(values@),
{
    let mut i: usize = 0;
    while i < values.len()
        invariant
            i <= values.len(),
            forall|j: int| 0 <= j < i ==> #[trigger] values[j] > 0,
        decreases values.len() - i,
    {
        if values[i] == 0 {
            return true;
        }
        i = i + 1;
    }
    false
}

/// Whether one entry holds more than half of the total.
pub fn is_dominated(points: &Vec<u32>) -> (answer: bool)
    ensures
        answer == dominated(point_ints(points@)),
{
    let mut i: usize = 0;
    while i < points.len()
        invariant
            i <= points.len(),
            forall|j: int| 0 <= j < i ==> #[trigger] point_ints(points@)[j] <= DOMINANCE_LIMIT,
        decreases points.len() - i,
    {
        if points[i] > DOMINANCE_LIMIT {
            assert(point_ints(points@)[i as int] > DOMINANCE_LIMIT);
            return true;
        }
        i = i + 1;
    }
    false
}

/// What the allocator arrived at for a list of items.
#[derive(Debug)]
pub struct Allocation {
    /// The weight of every item, relative to the cheapest item.
    pub weights: Vec<u128>,
    /// The basis points of every item.
    pub probabilities: Vec<u32>,
    /// The house edge that was settled on, in basis points.
    pub house_edge: u32,
}

/// Allocates the prize budget of 10 000 basis points to a list of items by
/// their values, and reports the weights and the house edge that it settled
/// on.
///
/// Each item is weighted by its value under the policy's strategy; the
/// weights are normalized so that every item but the last gets its share
/// rounded to nearest and the last takes the remainder, no item ending below
/// the policy's floor. Where one item then holds more than half, or the
/// rounded shares fell short of the total, the house edge is moved a step
/// within its band, at most `MAX_PASSES` times. The ticket price and the
/// house edge are factors that all weights share: they leave the shares as
/// they are.
#[verifier::loop_isolation(false)]
pub fn allocate(values: &Vec<u64>, ticket_price: u64, policy: &AllocationPolicy) -> (outcome:
    Result<Allocation, ProbabilityError>)
    ensures
        match outcome {
            Ok(found) => {
                &&& allocatable(values@, ticket_price, *policy)
                &&& allocation(values@, ticket_price, *policy) == Ok::<
                    Seq<int>,
                    ProbabilityError,
                >(point_ints(found.probabilities@))
                &&& found.house_edge == settled_house_edge(
                    values@,
                    *policy,
                    policy.house_edge as int,
                    MAX_PASSES as nat,
                )
                &&& weight_ints(found.weights@) == item_weights(policy.strategy, values@)
                &&& total(weight_ints(found.weights@)) <= MAX_TOTAL_WEIGHT
                &&& found.probabilities.len() == values.len()
                &&& total(point_ints(found.probabilities@)) == TOTAL_BASIS_POINTS
                &&& forall|i: int|
                    0 <= i < values.len() ==> policy.min_probability
                        <= #[trigger] found.probabilities[i] <= TOTAL_BASIS_POINTS
            },
            Err(error) => allocation(values@, ticket_price, *policy) == Err::<
                Seq<int>,
                ProbabilityError,
            >(error),
        },
{
    if values.len() == 0 {
        return Err(ProbabilityError::NoItemsProvided);
    }
    if ticket_price == 0 || has_zero_value(values) {
        return Err(ProbabilityError::InvalidPrice);
    }
    if !policy.is_feasible(values.len()) {
        return Err(ProbabilityError::InvalidProbabilityCalculation);
    }
    let weights = match weights_of(policy.strategy, values) {
        Some(weights) => weights,
        None => {
            return Err(ProbabilityError::Overflow);
        },
    };
    proof {
        lemma_weights_normalizable(values@, *policy);
    }
    let floor = policy.min_probability;
    let points = normalize_probabilities(&weights, floor, MAX_PASSES);
    let dominant = is_dominated(&points);
    let short = unadjusted_total(&weights, floor) < TOTAL_BASIS_POINTS as u128;
    let mut house_edge: u32 = policy.house_edge;
    let mut rounds: u32 = MAX_PASSES;
    loop
        invariant
            policy.consistent(),
            policy.min_house_edge <= house_edge <= policy.max_house_edge,
            dominant == dominated(allocated(values@, *policy)),
            short == undersubscribed(
                item_weights(policy.strategy, values@),
                policy.min_probability as int,
            ),
            settled_house_edge(values@, *policy, house_edge as int, rounds as nat)
                == settled_house_edge(
                values@,
                *policy,
                policy.house_edge as int,
                MAX_PASSES as nat,
            ),
        decreases rounds,
    {
        let next: u32 = if dominant {
            if house_edge + HOUSE_EDGE_STEP <= policy.max_house_edge {
                house_edge + HOUSE_EDGE_STEP
            } else {
                policy.max_house_edge
            }
        } else if short {
            if house_edge >= HOUSE_EDGE_STEP && house_edge - HOUSE_EDGE_STEP
                >= policy.min_house_edge {
                house_edge - HOUSE_EDGE_STEP
            } else {
                policy.min_house_edge
            }
        } else {
            house_edge
        };
        assert(next == next_house_edge(values@, *policy, house_edge as int));
        if rounds == 0 || next == house_edge {
            return Ok(Allocation { weights, probabilities: points, house_edge });
        }
        house_edge = next;
        rounds = rounds - 1;
    }
}

/// Allocates the prize budget of 10 000 basis points to a list of items by
/// their values: the basis points that `allocate` arrives at.
pub fn allocate_probabilities(
    values: &Vec<u64>,
    ticket_price: u64,
    policy: &AllocationPolicy,
) -> (outcome: Result<Vec<u32>, ProbabilityError>)
    ensures
        match outcome {
            Ok(points) => {
                &&& allocatable(values@, ticket_price, *policy)
                &&& allocation(values@, ticket_price, *policy) == Ok::<
                    Seq<int>,
                    ProbabilityError,
                >(point_ints(points@))
                &&& points.len() == values.len()
                &&& total(point_ints(points@)) == TOTAL_BASIS_POINTS
                &&& forall|i: int|
                    0 <= i < points.len() ==> policy.min_probability <= #[trigger] points[i]
                        <= TOTAL_BASIS_POINTS
            },
            Err(error) => allocation(values@, ticket_price, *policy) == Err::<
                Seq<int>,
                ProbabilityError,
            >(error),
        },
{
    match allocate(values, ticket_price, policy) {
        Ok(found) => Ok(found.probabilities),
        Err(error) => Err(error),
    }
}

} // verus!
