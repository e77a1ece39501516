//! The calculator that holds a list of named items with their weights and
//! probabilities, and the two entry points of the engine: allocation for a
//! list of items, and selection of a winner.

pub use crate::allocation::ProbabilityError;
pub use crate::analysis::ProfitabilityAnalysis;
pub use crate::selection::select_winning_item_index;

use crate::allocation::{
    allocatable, allocate, allocated, allocation, lemma_dearer_item_is_rarer,
    lemma_equal_values_differ_only_in_last, lemma_equal_values_share_evenly_in_standard_pools,
    lemma_single_item_is_certain, lemma_standard_lists_are_served, standard_policy,
    AllocationPolicy,
};
use crate::analysis::{
    analyze_profitability, expected_cost, expected_spins, expected_spins_for,
    probability_as_fraction, probability_fraction, profit, profit_ratio, ExpectedSpins, Fraction,
};
use crate::arith::{rounded_quotient, total};
use crate::normalize::{point_ints, sum_points, weight_ints, sum_weights, TOTAL_BASIS_POINTS};
use crate::weights::{all_positive, item_weights, WeightStrategy};
use vstd::prelude::*;

verus! {

/// An item of a pool with what the allocator gave it.
#[derive(Debug)]
pub struct WeightedItem {
    pub name: String,
    pub value: u64,
    /// The weight of the item, with 64 fraction bits.
    pub weight: u128,
    /// The probability of the item in basis points (1 = 0.01 %).
    pub probability: u32,
}

impl Clone for WeightedItem {
    fn clone(&self) -> (copy: Self)
        ensures
            copy == *self,
    {
        WeightedItem {
            name: self.name.clone(),
            value: self.value,
            weight: self.weight,
            probability: self.probability,
        }
    }
}

/// The items of a pool with their weights and probabilities, for a ticket
/// price and under a policy.
#[derive(Debug)]
pub struct WeightedProbabilityCalculator {
    pub items: Vec<WeightedItem>,
    pub ticket_price: u64,
    /// Sum of the weights of the items.
    pub total_weight: u128,
    /// The policy that the items were weighted and normalized under.
    pub policy: AllocationPolicy,
}

/// The values of a list of items.
pub open spec fn item_values(items: Seq<WeightedItem>) -> Seq<u64> {
    Seq::new(items.len(), |i: int| items[i].value)
}

/// The weights of a list of items.
pub open spec fn item_weight_list(items: Seq<WeightedItem>) -> Seq<int> {
    Seq::new(items.len(), |i: int| items[i].weight as int)
}

/// The probabilities of a list of items.
pub open spec fn item_probabilities(items: Seq<WeightedItem>) -> Seq<int> {
    Seq::new(items.len(), |i: int| items[i].probability as int)
}

/// The values of a list of named values.
pub open spec fn listed_values(items: Seq<(String, u64)>) -> Seq<u64> {
    Seq::new(items.len(), |i: int| items[i].1)
}

/// `index` is the first item of the list that goes by `name`.
pub open spec fn is_first_named(items: Seq<WeightedItem>, name: Seq<char>, index: int) -> bool {
    &&& 0 <= index < items.len()
    &&& items[index].name@ == name
    &&& forall|j: int| 0 <= j < index ==> #[trigger] items[j].name@ != name
}

/// The first item of the list that goes by `name`, if there is one.
pub open spec fn first_named(items: Seq<WeightedItem>, name: Seq<char>) -> Option<int> {
    if exists|index: int| is_first_named(items, name, index) {
        Some(choose|index: int| is_first_named(items, name, index))
    } else {
        None
    }
}

/// The probability, in basis points, of the first item that goes by `name`;
/// zero where no item does.
pub open spec fn probability_of(items: Seq<WeightedItem>, name: Seq<char>) -> u32 {
    match first_named(items, name) {
        Some(index) => items[index].probability,
        None => 0,
    }
}

/// At most one item is the first of its name.
pub proof fn lemma_first_named_is_unique(
    items: Seq<WeightedItem>,
    name: Seq<char>,
    first: int,
    second: int,
)
    requires
        is_first_named(items, name, first),
        is_first_named(items, name, second),
    ensures
        first == second,
{
}

/// The values of a list of named values, in the order of the list.
pub fn values_of(items: &[(String, u64)]) -> (values: Vec<u64>)
    ensures
        values@ == listed_values(items@),
{
    let mut values: Vec<u64> = Vec::new();
    let mut i: usize = 0;
    while i < items.len()
        invariant
            i <= items.len(),
            values.len() == i,
            forall|j: int| 0 <= j < i ==> #[trigger] values[j] == items[j].1,
        decreases items.len() - i,
    {
        values.push(items[i].1);
        i = i + 1;
    }
    assert(values@ =~= listed_values(items@));
    values
}

impl WeightedProbabilityCalculator {
    /// The items carry what the allocator arrives at for their values, the
    /// ticket price and the policy.
    pub open spec fn well_formed(self) -> bool {
        let values = item_values(self.items@);
        &&& allocatable(values, self.ticket_price, self.policy)
        &&& item_probabilities(self.items@) == allocated(values, self.policy)
        &&& item_weight_list(self.items@) == item_weights(self.policy.strategy, values)
        &&& self.total_weight == total(item_weight_list(self.items@))
    }

    /// The calculator has the names and values of `items`, in their order.
    pub open spec fn lists(self, items: Seq<(String, u64)>) -> bool {
        &&& self.items.len() == items.len()
        &&& forall|i: int|
            0 <= i < items.len() ==> (#[trigger] self.items[i]).name == items[i].0
                && self.items[i].value == items[i].1
    }

    /// The calculator has the names and values that `other` has.
    pub open spec fn same_items(self, other: Self) -> bool {
        &&& self.items.len() == other.items.len()
        &&& forall|i: int|
            0 <= i < self.items.len() ==> (#[trigger] self.items[i]).name == other.items[i].name
                && self.items[i].value == other.items[i].value
    }

    /// A calculator for the given items under the given policy, with their
    /// weights and probabilities; the error of the allocator where it cannot
    /// serve the list.
    pub fn with_policy(
        items: &[(String, u64)],
        ticket_price: u64,
        policy: AllocationPolicy,
    ) -> (outcome: Result<Self, ProbabilityError>)
        ensures
            match outcome {
                Ok(calculator) => {
                    &&& calculator.well_formed()
                    &&& calculator.lists(items@)
                    &&& calculator.ticket_price == ticket_price
                    &&& calculator.policy == policy
                },
                Err(error) => allocation(listed_values(items@), ticket_price, policy) == Err::<
                    Seq<int>,
                    ProbabilityError,
                >(error),
            },
    {
        let values = values_of(items);
        let found = match allocate(&values, ticket_price, &policy) {
            Ok(found) => found,
            Err(error) => {
                return Err(error);
            },
        };
        let total_weight = sum_weights(&found.weights);
        let mut weighted: Vec<WeightedItem> = Vec::new();
        let mut i: usize = 0;
        while i < items.len()
            invariant
                i <= items.len(),
                weighted.len() == i,
                values@ == listed_values(items@),
                found.weights.len() == items.len(),
                found.probabilities.len() == items.len(),
                forall|j: int|
                    0 <= j < i ==> {
                        &&& (#[trigger] weighted[j]).name == items[j].0
                        &&& weighted[j].value == items[j].1
                        &&& weighted[j].weight == found.weights[j]
                        &&& weighted[j].probability == found.probabilities[j]
                    },
            decreases items.len() - i,
        {
            weighted.push(
                WeightedItem {
                    name: items[i].0.clone(),
                    value: items[i].1,
                    weight: found.weights[i],
                    probability: found.probabilities[i],
                },
            );
            i = i + 1;
        }
        assert(item_values(weighted@) =~= values@);
        assert(item_probabilities(weighted@) =~= point_ints(found.probabilities@));
        assert(item_weight_list(weighted@) =~= weight_ints(found.weights@));
        Ok(
            WeightedProbabilityCalculator {
                items: weighted,
                ticket_price,
                total_weight,
                policy,
            },
        )
    }

    /// A calculator for the given items under the standard policy: power-law
    /// weights on the number of tickets that an item is worth. It is made if
    /// and only if there are from one to 10 000 items, none of a value of
    /// zero, and the ticket price is above zero.
    pub fn new(items: Vec<(String, u64)>, ticket_price: u64) -> (outcome: Result<
        Self,
        ProbabilityError,
    >)
        ensures
            outcome is Ok <==> 1 <= items.len() <= TOTAL_BASIS_POINTS && ticket_price > 0
                && all_positive(listed_values(items@)),
            match outcome {
                Ok(calculator) => {
                    &&& calculator.well_formed()
                    &&& calculator.lists(items@)
                    &&& calculator.ticket_price == ticket_price
                    &&& calculator.policy == standard_policy()
                },
                Err(error) => allocation(listed_values(items@), ticket_price, standard_policy())
                    == Err::<Seq<int>, ProbabilityError>(error),
            },
    {
        let outcome = Self::with_policy(
            items.as_slice(),
            ticket_price,
            AllocationPolicy::standard(),
        );
        proof {
            lemma_standard_lists_are_served(listed_values(items@), ticket_price);
            if outcome is Ok {
                assert(item_values(outcome->Ok_0.items@) =~= listed_values(items@));
            }
        }
        outcome
    }

    /// The names and values of the items, in their order.
    pub fn named_values(&self) -> (listed: Vec<(String, u64)>)
        ensures
            self.lists(listed@),
            listed_values(listed@) == item_values(self.items@),
    {
        let mut listed: Vec<(String, u64)> = Vec::new();
        let mut i: usize = 0;
        while i < self.items.len()
            invariant
                i <= self.items.len(),
                listed.len() == i,
                forall|j: int|
                    0 <= j < i ==> (#[trigger] listed[j]).0 == self.items[j].name && listed[j].1
                        == self.items[j].value,
            decreases self.items.len() - i,
        {
            listed.push((self.items[i].name.clone(), self.items[i].value));
            i = i + 1;
        }
        assert(listed_values(listed@) =~= item_values(self.items@));
        listed
    }

    /// Weights and probabilities anew under the given strategy. Where the
    /// allocator cannot serve the items, the calculator stays as it was.
    pub fn calculate_weights(&mut self, strategy: WeightStrategy) -> (outcome: Result<
        (),
        ProbabilityError,
    >)
        ensures
            match outcome {
                Ok(_) => {
                    &&& final(self).well_formed()
                    &&& final(self).same_items(*old(self))
                    &&& final(self).ticket_price == old(self).ticket_price
                    &&& final(self).policy == with_strategy(old(self).policy, strategy)
                },
                Err(error) => {
                    &&& *final(self) == *old(self)
                    &&& allocation(
                        item_values(old(self).items@),
                        old(self).ticket_price,
                        with_strategy(old(self).policy, strategy),
                    ) == Err::<Seq<int>, ProbabilityError>(error)
                },
            },
    {
        let policy = AllocationPolicy {
            strategy,
            min_probability: self.policy.min_probability,
            house_edge: self.policy.house_edge,
            min_house_edge: self.policy.min_house_edge,
            max_house_edge: self.policy.max_house_edge,
        };
        let listed = self.named_values();
        match Self::with_policy(listed.as_slice(), self.ticket_price, policy) {
            Ok(renewed) => {
                self.items = renewed.items;
                self.total_weight = renewed.total_weight;
                self.policy = renewed.policy;
                Ok(())
            },
            Err(error) => Err(error),
        }
    }

    /// Simple weighting: the weight of an item is the inverse of its value,
    /// so that a higher value means a lower probability.
    pub fn calculate_weights_simple(&mut self) -> (outcome: Result<(), ProbabilityError>)
        ensures
            match outcome {
                Ok(_) => {
                    &&& final(self).well_formed()
                    &&& final(self).same_items(*old(self))
                    &&& final(self).ticket_price == old(self).ticket_price
                    &&& final(self).policy == with_strategy(
                        old(self).policy,
                        WeightStrategy::InverseValue,
                    )
                },
                Err(error) => {
                    &&& *final(self) == *old(self)
                    &&& allocation(
                        item_values(old(self).items@),
                        old(self).ticket_price,
                        with_strategy(old(self).policy, WeightStrategy::InverseValue),
                    ) == Err::<Seq<int>, ProbabilityError>(error)
                },
            },
    {
        self.calculate_weights(WeightStrategy::InverseValue)
    }

    /// Advanced weighting: the weight of an item falls with the number of
    /// tickets that it is worth, raised to the power 1.5.
    pub fn calculate_weights_advanced(&mut self) -> (outcome: Result<(), ProbabilityError>)
        ensures
            match outcome {
                Ok(_) => {
                    &&& final(self).well_formed()
                    &&& final(self).same_items(*old(self))
                    &&& final(self).ticket_price == old(self).ticket_price
                    &&& final(self).policy == with_strategy(
                        old(self).policy,
                        WeightStrategy::PowerLaw,
                    )
                },
                Err(error) => {
                    &&& *final(self) == *old(self)
                    &&& allocation(
                        item_values(old(self).items@),
                        old(self).ticket_price,
                        with_strategy(old(self).policy, WeightStrategy::PowerLaw),
                    ) == Err::<Seq<int>, ProbabilityError>(error)
                },
            },
    {
        self.calculate_weights(WeightStrategy::PowerLaw)
    }

    /// The index of the first item that goes by `item_name`.
    pub fn position_of(&self, item_name: &str) -> (position: Option<usize>)
        ensures
            match position {
                Some(index) => first_named(self.items@, item_name@) == Some(index as int)
                    && is_first_named(self.items@, item_name@, index as int),
                None => first_named(self.items@, item_name@) is None,
            },
    {
        let wanted = item_name.to_owned();
        let mut i: usize = 0;
        while i < self.items.len()
            invariant
                i <= self.items.len(),
                wanted@ == item_name@,
                forall|j: int| 0 <= j < i ==> (#[trigger] self.items[j]).name@ != item_name@,
            decreases self.items.len() - i,
        {
            if self.items[i].name == wanted {
                proof {
                    assert(is_first_named(self.items@, item_name@, i as int));
                    let chosen = choose|index: int|
                        is_first_named(self.items@, item_name@, index);
                    lemma_first_named_is_unique(self.items@, item_name@, i as int, chosen);
                }
                return Some(i);
            }
            i = i + 1;
        }
        None
    }

    /// The probability of the first item that goes by `item_name`, as a
    /// fraction of one; zero where no item does.
    pub fn get_probability_of_item(&self, item_name: &str) -> (probability: Fraction)
        ensures
            probability == probability_fraction(probability_of(self.items@, item_name@)),
    {
        match self.position_of(item_name) {
            Some(index) => probability_as_fraction(self.items[index].probability),
            None => probability_as_fraction(0),
        }
    }

    /// The number of spins that the first item that goes by `item_name` is
    /// expected to take; infinite where its probability is zero or no item
    /// goes by the name.
    pub fn get_expected_spins_for_item(&self, item_name: &str) -> (spins: ExpectedSpins)
        ensures
            spins == expected_spins(probability_of(self.items@, item_name@)),
            probability_of(self.items@, item_name@) == 0 <==> spins is Infinite,
    {
        match self.position_of(item_name) {
            Some(index) => expected_spins_for(self.items[index].probability),
            None => expected_spins_for(0),
        }
    }

    /// Every item with its value and its probability in basis points.
    pub fn get_items_with_probabilities(&self) -> (listed: Vec<(String, u64, u32)>)
        ensures
            listed.len() == self.items.len(),
            forall|i: int|
                0 <= i < listed.len() ==> {
                    &&& (#[trigger] listed[i]).0 == self.items[i].name
                    &&& listed[i].1 == self.items[i].value
                    &&& listed[i].2 == self.items[i].probability
                },
    {
        let mut listed: Vec<(String, u64, u32)> = Vec::new();
        let mut i: usize = 0;
        while i < self.items.len()
            invariant
                i <= self.items.len(),
                listed.len() == i,
                forall|j: int|
                    0 <= j < i ==> {
                        &&& (#[trigger] listed[j]).0 == self.items[j].name
                        &&& listed[j].1 == self.items[j].value
                        &&& listed[j].2 == self.items[j].probability
                    },
            decreases self.items.len() - i,
        {
            listed.push(
                (self.items[i].name.clone(), self.items[i].value, self.items[i].probability),
            );
            i = i + 1;
        }
        listed
    }

    /// Whether the probabilities add up to 10 000 basis points.
    pub fn validate_probabilities(&self) -> (valid: bool)
        ensures
            valid == (total(item_probabilities(self.items@)) == TOTAL_BASIS_POINTS),
            self.well_formed() ==> valid,
    {
        let mut points: Vec<u32> = Vec::new();
        let mut i: usize = 0;
        while i < self.items.len()
            invariant
                i <= self.items.len(),
                points.len() == i,
                forall|j: int| 0 <= j < i ==> #[trigger] points[j] == self.items[j].probability,
            decreases self.items.len() - i,
        {
            points.push(self.items[i].probability);
            i = i + 1;
        }
        assert(point_ints(points@) =~= item_probabilities(self.items@));
        proof {
            if self.well_formed() {
                crate::allocation::lemma_allocation_sums_to_total(
                    item_values(self.items@),
                    self.ticket_price,
                    self.policy,
                );
            }
        }
        sum_points(&points) == TOTAL_BASIS_POINTS as u128
    }

    /// The profitability figures of the first item that goes by `item_name`;
    /// none where no item goes by the name or its probability is zero.
    pub fn get_profitability_analysis(&self, item_name: &str) -> (analysis: Option<
        ProfitabilityAnalysis,
    >)
        ensures
            analysis is None <==> probability_of(self.items@, item_name@) == 0,
            analysis matches Some(figures) ==> {
                &&& first_named(self.items@, item_name@) matches Some(index)
                &&& figures.item_name@ == item_name@
                &&& figures.item_value == self.items[index].value
                &&& expected_spins(self.items[index].probability) == ExpectedSpins::Finite(
                    figures.expected_spins,
                )
                &&& figures.expected_cost == expected_cost(
                    self.items[index].probability,
                    self.ticket_price,
                )
                &&& figures.profit == profit(
                    self.items[index].value,
                    self.items[index].probability,
                    self.ticket_price,
                )
                &&& figures.profit_ratio == profit_ratio(
                    self.items[index].value,
                    self.items[index].probability,
                    self.ticket_price,
                )
            },
    {
        match self.position_of(item_name) {
            Some(index) => analyze_profitability(
                item_name.to_owned(),
                self.items[index].value,
                self.items[index].probability,
                self.ticket_price,
            ),
            None => None,
        }
    }
}

/// The policy with another strategy.
pub open spec fn with_strategy(policy: AllocationPolicy, strategy: WeightStrategy) -> AllocationPolicy {
    AllocationPolicy {
        strategy,
        min_probability: policy.min_probability,
        house_edge: policy.house_edge,
        min_house_edge: policy.min_house_edge,
        max_house_edge: policy.max_house_edge,
    }
}

/// The probabilities, in basis points, of a list of named items for a ticket
/// price, under the standard policy: one entry per item, in the order of the
/// list, adding up to exactly 10 000. A list is served if and only if it has
/// from one to 10 000 items, no value of zero, and a ticket price above
/// zero.
///
/// A single item gets the whole total. Of two items before the last the
/// dearer one never gets more. Items of one value get the same before the
/// last, which takes the rest; up to ten of them get the even share rounded
/// to nearest.
pub fn calculate_item_probabilities(items: &[(String, u64)], ticket_price: u64) -> (outcome:
    Result<Vec<u32>, ProbabilityError>)
    ensures
        outcome is Ok <==> 1 <= items.len() <= TOTAL_BASIS_POINTS && ticket_price > 0
            && all_positive(listed_values(items@)),
        match outcome {
            Ok(points) => {
                &&& allocation(listed_values(items@), ticket_price, standard_policy()) == Ok::<
                    Seq<int>,
                    ProbabilityError,
                >(point_ints(points@))
                &&& points.len() == items.len()
                &&& total(point_ints(points@)) == TOTAL_BASIS_POINTS
                &&& forall|i: int|
                    0 <= i < points.len() ==> 1 <= #[trigger] points[i] <= TOTAL_BASIS_POINTS
                &&& items.len() == 1 ==> points[0] == TOTAL_BASIS_POINTS
                &&& forall|i: int, j: int|
                    0 <= i < items.len() - 1 && 0 <= j < items.len() - 1 && items[i].1
                        > items[j].1 ==> #[trigger] points[i] <= #[trigger] points[j]
                &&& same_values(items@) ==> {
                    &&& forall|i: int|
                        0 <= i < items.len() - 1 ==> #[trigger] points[i] == points[0]
                    &&& points[items.len() - 1] == TOTAL_BASIS_POINTS - (items.len() - 1)
                        * points[0]
                    &&& items.len() <= 10 ==> forall|i: int|
                        0 <= i < items.len() - 1 ==> #[trigger] points[i] == rounded_quotient(
                            TOTAL_BASIS_POINTS as int,
                            items.len() as int,
                        )
                }
            },
            Err(error) => allocation(listed_values(items@), ticket_price, standard_policy())
                == Err::<Seq<int>, ProbabilityError>(error),
        },
{
    let values = values_of(items);
    let policy = AllocationPolicy::standard();
    proof {
        lemma_standard_lists_are_served(values@, ticket_price);
    }
    match allocate(&values, ticket_price, &policy) {
        Ok(found) => {
            let points = found.probabilities;
            proof {
                let shares = allocated(values@, policy);
                assert(shares == point_ints(points@));
                assert forall|i: int| 0 <= i < points.len() implies shares[i]
                    == #[trigger] points[i] by {}
                if items.len() == 1 {
                    lemma_single_item_is_certain(values@, ticket_price, policy);
                    assert(shares[0] == points[0]);
                }
                assert forall|i: int, j: int|
                    0 <= i < items.len() - 1 && 0 <= j < items.len() - 1 && items[i].1
                        > items[j].1 implies #[trigger] points[i] <= #[trigger] points[j] by {
                    lemma_dearer_item_is_rarer(values@, ticket_price, policy, i, j);
                    assert(shares[i] == points[i] && shares[j] == points[j]);
                }
                if same_values(items@) {
                    assert forall|i: int| 0 <= i < values.len() implies #[trigger] values[i]
                        == values[0] by {
                        assert(items[i].1 == items[0].1);
                    }
                    lemma_equal_values_differ_only_in_last(values@, ticket_price, policy);
                    assert(shares[0] == points[0]);
                    assert(shares[items.len() - 1] == points[items.len() - 1]);
                    assert forall|i: int| 0 <= i < items.len() - 1 implies #[trigger] points[i]
                        == points[0] by {
                        assert(shares[i] == shares[0]);
                    }
                    if items.len() <= 10 {
                        lemma_equal_values_share_evenly_in_standard_pools(values@, ticket_price);
                    }
                }
            }
            Ok(points)
        },
        Err(error) => Err(error),
    }
}

/// All items of the list have one value.
pub open spec fn same_values(items: Seq<(String, u64)>) -> bool {
    forall|i: int| 0 <= i < items.len() ==> (#[trigger] items[i]).1 == items[0].1
}

} // verus!
