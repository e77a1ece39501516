use prize_pool::allocation::{AllocationPolicy, ProbabilityError};
use prize_pool::analysis::{
    analyze_profitability, expected_spins_for, probability_as_fraction, ExpectedSpins, Fraction,
};
use prize_pool::probability::{
    calculate_item_probabilities, select_winning_item_index, values_of,
    WeightedProbabilityCalculator,
};
use prize_pool::weights::WeightStrategy;

fn named(items: &[(&str, u64)]) -> Vec<(String, u64)> {
    items.iter().map(|(name, value)| (name.to_string(), *value)).collect()
}

fn ratio(fraction: Fraction) -> f64 {
    fraction.numerator as f64 / fraction.denominator as f64
}

#[test]
fn test_probability_calculation() {
    let items = named(&[("iPhone", 10), ("iPad", 50), ("MacBook", 200), ("AirPods", 1000)]);
    let calculator = WeightedProbabilityCalculator::new(items, 100).unwrap();

    assert!(calculator.validate_probabilities());

    let iphone = calculator.get_probability_of_item("iPhone");
    let airpods = calculator.get_probability_of_item("AirPods");
    assert_eq!(iphone, Fraction { numerator: 9078, denominator: 10_000 });
    assert_eq!(airpods, Fraction { numerator: 9, denominator: 10_000 });
    assert!(ratio(iphone) > ratio(airpods));
}

#[test]
fn test_single_item() {
    let calc = WeightedProbabilityCalculator::new(named(&[("Prize", 100)]), 10).unwrap();
    assert_eq!(calc.items[0].probability, 10_000);
}

#[test]
fn test_equal_value_items() {
    let calc =
        WeightedProbabilityCalculator::new(named(&[("A", 100), ("B", 100), ("C", 100)]), 10)
            .unwrap();
    assert!((3333..=3334).contains(&calc.items[0].probability));
    assert_eq!(calc.items[0].probability, 3333);
    assert_eq!(calc.items[1].probability, 3333);
    assert_eq!(calc.items[2].probability, 3334);
}

#[test]
fn test_random_selection_distribution() {
    let calc = WeightedProbabilityCalculator::new(
        named(&[("Common", 100), ("Rare", 500), ("Legendary", 2000)]),
        10,
    )
    .unwrap();
    let probabilities: Vec<u32> = calc.items.iter().map(|i| i.probability).collect();
    assert_eq!(probabilities, vec![9086, 813, 101]);
    let mut results = [0u32; 3];
    for seed in 0..10_000u64 {
        let winner = select_winning_item_index(&probabilities, seed).unwrap();
        results[winner] += 1;
    }
    assert_eq!(results, [9086, 813, 101]);
}

#[test]
fn test_probability_math() {
    let calc = WeightedProbabilityCalculator::new(named(&[("A", 100), ("B", 200)]), 10).unwrap();

    let prob_a = calc.get_probability_of_item("A");
    let prob_b = calc.get_probability_of_item("B");
    assert_eq!(prob_a.numerator + prob_b.numerator, 10_000);
    assert!((ratio(prob_a) + ratio(prob_b) - 1.0).abs() < 0.0001);

    match calc.get_expected_spins_for_item("A") {
        ExpectedSpins::Finite(spins) => {
            assert_eq!(spins, Fraction { numerator: 10_000, denominator: 7388 });
            assert!((ratio(spins) - 1.0 / ratio(prob_a)).abs() < 0.0001);
        }
        ExpectedSpins::Infinite => panic!("item A has a probability above zero"),
    }
}

#[test]
fn calculator_keeps_names_values_and_policy() {
    let calc = WeightedProbabilityCalculator::new(named(&[("A", 100), ("B", 200)]), 10).unwrap();
    assert_eq!(calc.ticket_price, 10);
    assert_eq!(calc.items.len(), 2);
    assert_eq!(calc.items[0].name, "A");
    assert_eq!(calc.items[0].value, 100);
    assert_eq!(calc.items[1].name, "B");
    assert_eq!(calc.items[1].value, 200);
    assert_eq!(calc.items[0].probability, 7388);
    assert_eq!(calc.items[1].probability, 2612);
    assert_eq!(calc.total_weight, calc.items[0].weight + calc.items[1].weight);
    assert_eq!(calc.policy.strategy, WeightStrategy::PowerLaw);
    assert_eq!(
        calc.get_items_with_probabilities(),
        vec![("A".to_string(), 100, 7388), ("B".to_string(), 200, 2612)]
    );
}

#[test]
fn simple_and_advanced_weighting_differ() {
    let mut calc =
        WeightedProbabilityCalculator::new(named(&[("A", 100), ("B", 200)]), 10).unwrap();
    assert_eq!(calc.calculate_weights_simple(), Ok(()));
    assert_eq!(calc.policy.strategy, WeightStrategy::InverseValue);
    assert_eq!(calc.items[0].probability, 6667);
    assert_eq!(calc.items[1].probability, 3333);
    assert_eq!(calc.items[0].weight, 1u128 << 60);
    assert_eq!(calc.items[1].weight, 1u128 << 59);
    assert_eq!(calc.total_weight, (1u128 << 60) + (1u128 << 59));
    assert!(calc.validate_probabilities());

    assert_eq!(calc.calculate_weights_advanced(), Ok(()));
    assert_eq!(calc.policy.strategy, WeightStrategy::PowerLaw);
    assert_eq!(calc.items[0].probability, 7388);
    assert_eq!(calc.items[1].probability, 2612);
    assert_eq!(calc.items[0].name, "A");
}

#[test]
fn a_failed_recalculation_leaves_the_calculator_as_it_was() {
    let mut calc =
        WeightedProbabilityCalculator::new(named(&[("A", 100), ("B", 200)]), 10).unwrap();
    calc.ticket_price = 0;
    assert_eq!(calc.calculate_weights_simple(), Err(ProbabilityError::InvalidPrice));
    assert_eq!(calc.policy.strategy, WeightStrategy::PowerLaw);
    assert_eq!(calc.items[0].probability, 7388);
    assert_eq!(calc.items[1].probability, 2612);
}

#[test]
fn tampered_probabilities_do_not_validate() {
    let mut calc =
        WeightedProbabilityCalculator::new(named(&[("A", 100), ("B", 200)]), 10).unwrap();
    calc.items[0].probability += 1;
    assert!(!calc.validate_probabilities());
}

#[test]
fn calculator_serves_a_single_item_whatever_it_is_worth() {
    let calc = WeightedProbabilityCalculator::new(named(&[("Prize", 1)]), 1 << 32).unwrap();
    assert_eq!(calc.ticket_price, 1 << 32);
    assert_eq!(calc.items.len(), 1);
    assert_eq!(calc.items[0].name, "Prize");
    assert_eq!(calc.items[0].value, 1);
    assert_eq!(calc.items[0].probability, 10_000);
    assert_eq!(
        calc.named_values(),
        vec![("Prize".to_string(), 1)]
    );
}

#[test]
fn calculator_refuses_what_the_allocator_refuses() {
    assert_eq!(
        WeightedProbabilityCalculator::new(Vec::new(), 10).err(),
        Some(ProbabilityError::NoItemsProvided)
    );
    assert_eq!(
        WeightedProbabilityCalculator::new(named(&[("A", 100)]), 0).err(),
        Some(ProbabilityError::InvalidPrice)
    );
    let mut policy = AllocationPolicy::standard();
    policy.max_house_edge = 10_000;
    assert_eq!(
        WeightedProbabilityCalculator::with_policy(&named(&[("A", 100)]), 10, policy).err(),
        Some(ProbabilityError::InvalidProbabilityCalculation)
    );
}

#[test]
fn lookup_by_name_takes_the_first_match() {
    let calc = WeightedProbabilityCalculator::new(
        named(&[("A", 100), ("B", 500), ("A", 2000)]),
        10,
    )
    .unwrap();
    assert_eq!(calc.position_of("A"), Some(0));
    assert_eq!(calc.position_of("B"), Some(1));
    assert_eq!(calc.position_of("C"), None);
    assert_eq!(
        calc.get_probability_of_item("A"),
        Fraction { numerator: 9086, denominator: 10_000 }
    );
    assert_eq!(
        calc.get_probability_of_item("missing"),
        Fraction { numerator: 0, denominator: 10_000 }
    );
    assert_eq!(calc.get_expected_spins_for_item("missing"), ExpectedSpins::Infinite);
    assert!(calc.get_profitability_analysis("missing").is_none());
}

#[test]
fn profitability_figures_are_exact() {
    let calc = WeightedProbabilityCalculator::new(named(&[("A", 100), ("B", 200)]), 10).unwrap();
    let analysis = calc.get_profitability_analysis("A").unwrap();
    assert_eq!(analysis.item_name, "A");
    assert_eq!(analysis.item_value, 100);
    assert_eq!(analysis.expected_spins, Fraction { numerator: 10_000, denominator: 7388 });
    assert_eq!(analysis.expected_cost, Fraction { numerator: 100_000, denominator: 7388 });
    assert_eq!(analysis.profit, Fraction { numerator: 638_800, denominator: 7388 });
    assert_eq!(
        analysis.profit_ratio,
        Some(Fraction { numerator: 638_800, denominator: 100_000 })
    );
}

#[test]
fn profitability_identity_holds() {
    for probability in [1u32, 9, 101, 812, 2500, 7388, 10_000] {
        let analysis =
            analyze_profitability("item".to_string(), 1000, probability, 100).unwrap();
        let spins = analysis.expected_spins;
        assert_eq!(spins.numerator * probability as i128, 10_000 * spins.denominator);
        assert!((ratio(spins) * probability as f64 - 10_000.0).abs() < 1e-6);
        let cost = analysis.expected_cost;
        assert_eq!(cost.numerator * spins.denominator, spins.numerator * 100 * cost.denominator);
        let profit = analysis.profit;
        assert_eq!(
            profit.numerator * cost.denominator,
            (1000 * cost.denominator - cost.numerator) * profit.denominator
        );
        let gain = analysis.profit_ratio.unwrap();
        assert_eq!(
            gain.numerator * cost.numerator * profit.denominator,
            profit.numerator * cost.denominator * gain.denominator
        );
    }
    let analysis = analyze_profitability("item".to_string(), 1000, 2500, 100).unwrap();
    assert_eq!(ratio(analysis.expected_spins), 4.0);
    assert_eq!(ratio(analysis.expected_cost), 400.0);
    assert_eq!(ratio(analysis.profit), 600.0);
    assert_eq!(ratio(analysis.profit_ratio.unwrap()), 1.5);
}

#[test]
fn a_losing_item_has_a_negative_profit() {
    let analysis = analyze_profitability("item".to_string(), 100, 100, 10).unwrap();
    assert_eq!(analysis.expected_cost, Fraction { numerator: 100_000, denominator: 100 });
    assert_eq!(analysis.profit, Fraction { numerator: -90_000, denominator: 100 });
    assert_eq!(
        analysis.profit_ratio,
        Some(Fraction { numerator: -90_000, denominator: 100_000 })
    );
}

#[test]
fn zero_probability_has_infinite_spins_and_no_figures() {
    assert_eq!(expected_spins_for(0), ExpectedSpins::Infinite);
    assert!(analyze_profitability("item".to_string(), 1000, 0, 100).is_none());
    assert_eq!(
        expected_spins_for(2500),
        ExpectedSpins::Finite(Fraction { numerator: 10_000, denominator: 2500 })
    );
    assert_eq!(
        probability_as_fraction(2500),
        Fraction { numerator: 2500, denominator: 10_000 }
    );
}

#[test]
fn zero_ticket_price_leaves_the_profit_ratio_undefined() {
    let analysis = analyze_profitability("item".to_string(), 1000, 2500, 0).unwrap();
    assert_eq!(analysis.expected_cost, Fraction { numerator: 0, denominator: 2500 });
    assert_eq!(analysis.profit_ratio, None);
}

#[test]
fn extreme_figures_fit() {
    let analysis = analyze_profitability("item".to_string(), u64::MAX, 1, u64::MAX).unwrap();
    assert_eq!(
        analysis.expected_cost.numerator,
        10_000i128 * u64::MAX as i128
    );
    assert_eq!(analysis.profit.numerator, u64::MAX as i128 - 10_000i128 * u64::MAX as i128);
}

#[test]
fn item_probabilities_for_named_items() {
    let items = named(&[("A", 100), ("B", 500), ("C", 2000)]);
    assert_eq!(values_of(&items), vec![100, 500, 2000]);
    assert_eq!(calculate_item_probabilities(&items, 10), Ok(vec![9086, 813, 101]));
    assert_eq!(
        calculate_item_probabilities(&[], 10),
        Err(ProbabilityError::NoItemsProvided)
    );
    assert_eq!(
        calculate_item_probabilities(&items, 0),
        Err(ProbabilityError::InvalidPrice)
    );
}
