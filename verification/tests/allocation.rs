use prize_pool::allocation::{
    allocate, allocate_probabilities, AllocationPolicy, ProbabilityError,
};
use prize_pool::weights::WeightStrategy;

fn sum(points: &[u32]) -> u32 {
    points.iter().sum()
}

fn standard(values: &[u64], ticket_price: u64) -> Result<Vec<u32>, ProbabilityError> {
    allocate_probabilities(&values.to_vec(), ticket_price, &AllocationPolicy::standard())
}

#[test]
fn four_items_sum_to_the_whole_budget() {
    let points = standard(&[10, 50, 200, 1000], 100).unwrap();
    assert_eq!(points, vec![9078, 812, 101, 9]);
    assert_eq!(sum(&points), 10_000);
}

#[test]
fn exact_sum_holds_for_many_lists() {
    let lists: Vec<Vec<u64>> = vec![
        vec![1],
        vec![1, 2],
        vec![3, 3, 3],
        vec![10, 50, 200, 1000],
        vec![7, 77, 777, 7777, 77777],
        vec![1000, 999, 998, 997, 996, 995, 994, 993, 992, 991],
        vec![1, 1_000_000_000],
        vec![u64::MAX, u64::MAX - 1, 5],
    ];
    for values in lists {
        for ticket_price in [1u64, 10, 999, 1_000_000] {
            let points = standard(&values, ticket_price).unwrap();
            assert_eq!(points.len(), values.len());
            assert_eq!(sum(&points), 10_000);
            assert!(points.iter().all(|&p| p >= 1));
        }
    }
}

#[test]
fn single_item_is_certain() {
    assert_eq!(standard(&[100], 10).unwrap(), vec![10_000]);
    assert_eq!(standard(&[1], 1_000_000).unwrap(), vec![10_000]);
    assert_eq!(standard(&[u64::MAX], 1).unwrap(), vec![10_000]);
    assert_eq!(standard(&[1], 1 << 32).unwrap(), vec![10_000]);
    assert_eq!(standard(&[1], u64::MAX).unwrap(), vec![10_000]);
}

#[test]
fn equal_values_share_evenly_and_the_last_takes_the_difference() {
    assert_eq!(standard(&[100, 100, 100], 10).unwrap(), vec![3333, 3333, 3334]);
    assert_eq!(standard(&[1000; 4], 100).unwrap(), vec![2500; 4]);
    assert_eq!(
        standard(&[3; 7], 1).unwrap(),
        vec![1429, 1429, 1429, 1429, 1429, 1429, 1426]
    );
    for n in 1..=10usize {
        let points = standard(&vec![1000; n], 100).unwrap();
        let even = 10_000 / n as u32;
        for &p in &points[..n - 1] {
            assert_eq!(p, points[0]);
            assert!(p == even || p == even + 1);
        }
        assert_eq!(points[n - 1], 10_000 - (n as u32 - 1) * points[0]);
    }
}

#[test]
fn shares_do_not_depend_on_how_many_tickets_an_item_is_worth() {
    assert_eq!(standard(&[5_000_000_000; 2], 1).unwrap(), vec![5000, 5000]);
    assert_eq!(standard(&[5_000_000_000, 5_000_000_001], 1).unwrap(), vec![5000, 5000]);
    assert_eq!(standard(&[1_000_000_000_000; 2], 1).unwrap(), vec![5000, 5000]);
    assert_eq!(standard(&[u64::MAX; 2], 7).unwrap(), vec![5000, 5000]);
    assert_eq!(standard(&[u64::MAX; 3], 1).unwrap(), vec![3333, 3333, 3334]);
    assert_eq!(standard(&[2_000_000_000, 4_000_000_000], 1).unwrap(), vec![7388, 2612]);
    assert_eq!(standard(&[2, 4], 1_000_000_000).unwrap(), vec![7388, 2612]);
    assert_eq!(standard(&[100, 200], 10).unwrap(), vec![7388, 2612]);
}

#[test]
fn shares_do_not_depend_on_the_ticket_price() {
    for ticket_price in [1u64, 7, 10, 1 << 32, u64::MAX] {
        assert_eq!(standard(&[100, 500, 2000], ticket_price).unwrap(), vec![9086, 813, 101]);
        assert_eq!(standard(&[1], ticket_price).unwrap(), vec![10_000]);
    }
}

#[test]
fn dearer_items_are_rarer_before_the_last() {
    let values = [100u64, 500, 2000, 50, 700, 100];
    let points = standard(&values, 10).unwrap();
    for i in 0..values.len() - 1 {
        for j in 0..values.len() - 1 {
            if values[i] > values[j] {
                assert!(points[i] <= points[j]);
            }
        }
    }
    assert_eq!(standard(&[100, 500, 2000], 10).unwrap(), vec![9086, 813, 101]);
    assert_eq!(standard(&[100, 200], 10).unwrap(), vec![7388, 2612]);
    assert_eq!(
        standard(&values, 10).unwrap(),
        vec![2007, 179, 22, 5676, 108, 2008]
    );
}

#[test]
fn the_last_item_may_take_a_point_more_than_a_cheaper_one() {
    let points = standard(&[1_000_000, 1_000_000, 1_000_001], 10).unwrap();
    assert_eq!(points, vec![3333, 3333, 3334]);
}

#[test]
fn empty_list_is_refused() {
    assert_eq!(standard(&[], 10), Err(ProbabilityError::NoItemsProvided));
}

#[test]
fn zero_ticket_price_is_refused() {
    assert_eq!(standard(&[100, 200], 0), Err(ProbabilityError::InvalidPrice));
}

#[test]
fn zero_item_value_is_refused() {
    assert_eq!(standard(&[100, 0, 200], 10), Err(ProbabilityError::InvalidPrice));
}

#[test]
fn a_floor_that_exceeds_the_total_is_refused() {
    let mut policy = AllocationPolicy::standard();
    policy.min_probability = 5001;
    assert_eq!(
        allocate_probabilities(&vec![5, 5], 1, &policy),
        Err(ProbabilityError::InvalidProbabilityCalculation)
    );
}

#[test]
fn a_starting_edge_outside_the_band_is_refused() {
    let mut policy = AllocationPolicy::standard();
    policy.house_edge = 300;
    assert_eq!(
        allocate_probabilities(&vec![100, 200], 10, &policy),
        Err(ProbabilityError::InvalidProbabilityCalculation)
    );
}

#[test]
fn an_item_below_the_floor_is_lifted_to_it() {
    assert_eq!(standard(&[1, 1_000_000_000], 1).unwrap(), vec![9999, 1]);
    let mut policy = AllocationPolicy::standard();
    policy.min_probability = 50;
    let points = allocate_probabilities(&vec![1000, 2000, 3000], 500, &policy).unwrap();
    assert_eq!(points, vec![6468, 2287, 1245]);
    assert!(points.iter().all(|&p| p >= 50));
}

#[test]
fn a_weight_that_vanishes_beside_the_cheapest_item_gets_the_floor() {
    assert_eq!(standard(&[u64::MAX, 1], 1).unwrap(), vec![1, 9999]);
    assert_eq!(standard(&[1, u64::MAX], 1).unwrap(), vec![9999, 1]);
}

#[test]
fn inverse_value_strategy_is_proportional_to_inverse_values() {
    let mut policy = AllocationPolicy::standard();
    policy.strategy = WeightStrategy::InverseValue;
    let points = allocate_probabilities(&vec![100, 500, 2000], 10, &policy).unwrap();
    assert_eq!(points, vec![8000, 1600, 400]);
}

#[test]
fn allocation_reports_weights_and_settled_edge() {
    let found = allocate(&vec![100, 200], 10, &AllocationPolicy::standard()).unwrap();
    assert_eq!(found.probabilities, vec![7388, 2612]);
    assert_eq!(found.house_edge, 1500);
    assert_eq!(found.weights, vec![1u128 << 60, 407_619_307_041_649_444]);

    let even = allocate(&vec![100, 100, 100], 10, &AllocationPolicy::standard()).unwrap();
    assert_eq!(even.house_edge, 500);
    let settled = allocate(&vec![1000; 4], 100, &AllocationPolicy::standard()).unwrap();
    assert_eq!(settled.house_edge, 1000);
    assert_eq!(settled.weights, vec![1u128 << 60; 4]);
}

#[test]
fn standard_policy_is_feasible_for_ten_items() {
    let policy = AllocationPolicy::standard();
    assert!(policy.is_feasible(10));
    assert!(policy.is_feasible(10_000));
    assert!(!policy.is_feasible(10_001));
}
