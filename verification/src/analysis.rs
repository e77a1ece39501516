//! The analyzer: what an item is expected to cost a participant, against
//! what it is worth. Read-only figures, exact as fractions of integers.

use crate::normalize::TOTAL_BASIS_POINTS;
use vstd::prelude::*;

verus! {

/// A rational number: `numerator / denominator`, the denominator above zero.
#[derive(Clone, Copy, Debug, PartialEq, Eq, Structural)]
pub struct Fraction {
    pub numerator: i128,
    pub denominator: i128,
}

impl Fraction {
    /// The denominator is above zero.
    pub open spec fn well_formed(self) -> bool {
        self.denominator > 0
    }

    /// The fraction has the value of `numerator / denominator`.
    pub open spec fn is_ratio(self, numerator: int, denominator: int) -> bool {
        &&& self.well_formed()
        &&& denominator != 0
        &&& self.numerator * denominator == numerator * self.denominator
    }
}

/// The number of spins that winning an item is expected to take.
#[derive(Clone, Copy, Debug, PartialEq, Eq, Structural)]
pub enum ExpectedSpins {
    /// `10000 / probability` spins.
    Finite(Fraction),
    /// The item cannot be won: its probability is zero.
    Infinite,
}

/// The profitability figures of one item.
#[derive(Debug)]
pub struct ProfitabilityAnalysis {
    pub item_name: String,
    /// `10000 / probability`.
    pub expected_spins: Fraction,
    /// `expected_spins * ticket_price`.
    pub expected_cost: Fraction,
    pub item_value: u64,
    /// `item_value - expected_cost`.
    pub profit: Fraction,
    /// `profit / expected_cost`; undefined where the expected cost is zero.
    pub profit_ratio: Option<Fraction>,
}

/// The probability of an item as a fraction of one.
pub open spec fn probability_fraction(probability: u32) -> Fraction {
    Fraction { numerator: probability as i128, denominator: TOTAL_BASIS_POINTS as i128 }
}

/// The expected number of spins for an item of the given probability.
pub open spec fn expected_spins(probability: u32) -> ExpectedSpins {
    if probability == 0 {
        ExpectedSpins::Infinite
    } else {
        ExpectedSpins::Finite(
            Fraction { numerator: TOTAL_BASIS_POINTS as i128, denominator: probability as i128 },
        )
    }
}

/// The expected cost of winning an item: the expected spins times the price
/// of a ticket.
pub open spec fn expected_cost(probability: u32, ticket_price: u64) -> Fraction {
    Fraction {
        numerator: (TOTAL_BASIS_POINTS * ticket_price) as i128,
        denominator: probability as i128,
    }
}

/// What a participant gains on an item: its value less its expected cost.
pub open spec fn profit(item_value: u64, probability: u32, ticket_price: u64) -> Fraction {
    Fraction {
        numerator: (item_value * probability - TOTAL_BASIS_POINTS * ticket_price) as i128,
        denominator: probability as i128,
    }
}

/// The profit as a fraction of the expected cost, where that is not zero.
pub open spec fn profit_ratio(item_value: u64, probability: u32, ticket_price: u64) -> Option<
    Fraction,
> {
    if ticket_price == 0 {
        None
    } else {
        Some(
            Fraction {
                numerator: (item_value * probability - TOTAL_BASIS_POINTS * ticket_price) as i128,
                denominator: (TOTAL_BASIS_POINTS * ticket_price) as i128,
            },
        )
    }
}

/// Profitability identity: for a probability above zero the expected spins
/// times the probability are exactly 10 000, the expected cost is the
/// expected spins times the ticket price, the profit is the value less the
/// expected cost, and the profit ratio times the expected cost is the profit.
pub proof fn lemma_profitability_identities(item_value: u64, probability: u32, ticket_price: u64)
    requires
        probability > 0,
    ensures
        expected_spins(probability) matches ExpectedSpins::Finite(spins) && spins.is_ratio(
            TOTAL_BASIS_POINTS as int,
            probability as int,
        ) && spins.numerator * probability == TOTAL_BASIS_POINTS * spins.denominator,
        expected_cost(probability, ticket_price).is_ratio(
            TOTAL_BASIS_POINTS * ticket_price,
            probability as int,
        ),
        profit(item_value, probability, ticket_price).is_ratio(
            item_value * probability - TOTAL_BASIS_POINTS * ticket_price,
            probability as int,
        ),
        profit_ratio(item_value, probability, ticket_price) matches Some(ratio) ==> ratio.is_ratio(
            item_value * probability - TOTAL_BASIS_POINTS * ticket_price,
            TOTAL_BASIS_POINTS * ticket_price,
        ),
{
    let gain = item_value * probability - TOTAL_BASIS_POINTS * ticket_price;
    let cost = TOTAL_BASIS_POINTS * ticket_price;
    lemma_figures_fit(item_value, probability, ticket_price);
    assert(TOTAL_BASIS_POINTS as i128 * probability == TOTAL_BASIS_POINTS * (probability as i128));
    assert((cost as i128) * probability == cost * (probability as i128)) by (nonlinear_arith)
        requires
            cost as i128 == cost,
            probability as i128 == probability,
    ;
    assert((gain as i128) * probability == gain * (probability as i128)) by (nonlinear_arith)
        requires
            gain as i128 == gain,
            probability as i128 == probability,
    ;
    if ticket_price != 0 {
        assert((gain as i128) * cost == gain * (cost as i128)) by (nonlinear_arith)
            requires
                gain as i128 == gain,
                cost as i128 == cost,
        ;
    }
}

/// The numerators and denominators of the figures fit in 128 bits.
pub proof fn lemma_figures_fit(item_value: u64, probability: u32, ticket_price: u64)
    ensures
        0 <= TOTAL_BASIS_POINTS * ticket_price <= 10_000 * 0xffff_ffff_ffff_ffff,
        0 <= item_value * probability <= 0xffff_ffff_ffff_ffff * 0xffff_ffff,
        (TOTAL_BASIS_POINTS * ticket_price) as i128 == TOTAL_BASIS_POINTS * ticket_price,
        (item_value * probability - TOTAL_BASIS_POINTS * ticket_price) as i128 == item_value
            * probability - TOTAL_BASIS_POINTS * ticket_price,
{
    assert(0 <= item_value * probability <= 0xffff_ffff_ffff_ffff * 0xffff_ffff)
        by (nonlinear_arith)
        requires
            0 <= item_value <= 0xffff_ffff_ffff_ffff,
            0 <= probability <= 0xffff_ffff,
    ;
}

/// The probability of an item as an exact fraction of one.
pub fn probability_as_fraction(probability: u32) -> (fraction: Fraction)
    ensures
        fraction == probability_fraction(probability),
        fraction.is_ratio(probability as int, TOTAL_BASIS_POINTS as int),
{
    Fraction { numerator: probability as i128, denominator: TOTAL_BASIS_POINTS as i128 }
}

/// The expected number of spins to win an item of the given probability:
/// `10000 / probability`, and infinite where the probability is zero.
pub fn expected_spins_for(probability: u32) -> (spins: ExpectedSpins)
    ensures
        spins == expected_spins(probability),
        probability == 0 <==> spins is Infinite,
        spins matches ExpectedSpins::Finite(fraction) ==> fraction.numerator * probability
            == TOTAL_BASIS_POINTS * fraction.denominator,
{
    if probability == 0 {
        ExpectedSpins::Infinite
    } else {
        ExpectedSpins::Finite(
            Fraction { numerator: TOTAL_BASIS_POINTS as i128, denominator: probability as i128 },
        )
    }
}

/// The profitability figures of an item from its value, its probability in
/// basis points and the price of a ticket. Where the probability is zero the
/// expected spins are infinite and there are no figures.
pub fn analyze_profitability(
    item_name: String,
    item_value: u64,
    probability: u32,
    ticket_price: u64,
) -> (analysis: Option<ProfitabilityAnalysis>)
    ensures
        probability == 0 <==> analysis is None,
        analysis matches Some(figures) ==> {
            &&& figures.item_name == item_name
            &&& figures.item_value == item_value
            &&& expected_spins(probability) == ExpectedSpins::Finite(figures.expected_spins)
            &&& figures.expected_cost == expected_cost(probability, ticket_price)
            &&& figures.profit == profit(item_value, probability, ticket_price)
            &&& figures.profit_ratio == profit_ratio(item_value, probability, ticket_price)
        },
{
    if probability == 0 {
        return None;
    }
    proof {
        lemma_figures_fit(item_value, probability, ticket_price);
    }
    let chance = probability as i128;
    let cost: i128 = TOTAL_BASIS_POINTS as i128 * ticket_price as i128;
    let gain: i128 = item_value as i128 * chance - cost;
    let ratio = if ticket_price == 0 {
        None
    } else {
        Some(Fraction { numerator: gain, denominator: cost })
    };
    Some(
        ProfitabilityAnalysis {
            item_name,
            expected_spins: Fraction { numerator: TOTAL_BASIS_POINTS as i128, denominator: chance },
            expected_cost: Fraction { numerator: cost, denominator: chance },
            item_value,
            profit: Fraction { numerator: gain, denominator: chance },
            profit_ratio: ratio,
        },
    )
}

} // verus!
