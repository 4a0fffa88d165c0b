use montecarlo::key::{bits_from_key, key_from_bits};
use montecarlo::statistics::{
    calculate_statistics, MulSimulationResult, OneSimulationResult, SimulationsArray,
};
use montecarlo::structs::Portfolio;
use rand::rngs::StdRng;
use rand::SeedableRng;
use rand_distr::{Distribution, Normal};

fn key(value: f64) -> i64 {
    key_from_bits(value.to_bits()).unwrap()
}

fn value(key: i64) -> f64 {
    f64::from_bits(bits_from_key(key).unwrap())
}

// One seeded run of trials: 3340.00 at 10% +- 10%, 50.00 a month, for three years.
fn outcomes(seed: u64, trials: usize) -> Vec<f64> {
    let mut rng = StdRng::seed_from_u64(seed);
    let normal = Normal::new(0.1, 0.1).unwrap();
    let mut values: Vec<f64> = Vec::with_capacity(trials);
    for _ in 0..trials {
        let mut current: f64 = 3340.0;
        for _ in 0..3 {
            let yearly_return: f64 = normal.sample(&mut rng);
            current *= 1.0 + yearly_return;
            current += 50.0 * 12.0;
        }
        values.push(current);
    }
    values
}

fn reduce(values: &[f64], goal: f64) -> MulSimulationResult {
    let simulations = SimulationsArray {
        simulations: values.iter().map(|v| OneSimulationResult { final_value: key(*v) }).collect(),
    };
    let portfolio = Portfolio {
        initial_investment: key(3340.0),
        expected_yearly_return: key(0.1),
        monthly_contributions: key(50.0),
        volatility: key(0.1),
        years: 3,
        goal: key(goal),
        num_simulations: values.len() as u32,
    };
    calculate_statistics(&simulations, &portfolio).unwrap()
}

#[test]
fn a_seeded_run_is_reproducible() {
    let first = reduce(&outcomes(7, 500), 5800.0);
    let second = reduce(&outcomes(7, 500), 5800.0);
    assert_eq!(first, second);
}

#[test]
fn a_random_run_agrees_with_a_plain_reduction() {
    let values: Vec<f64> = outcomes(2025, 1000);
    let result = reduce(&values, 5800.0);
    let mut sorted: Vec<f64> = values.clone();
    sorted.sort_by(|a, b| a.partial_cmp(b).unwrap());
    let reached: usize = values.iter().filter(|&&v| v >= 5800.0).count();
    assert_eq!(value(result.median_value), sorted[1000 / 2]);
    assert_eq!(value(result.confidence_interval.0), sorted[50]);
    assert_eq!(value(result.confidence_interval.1), sorted[950]);
    assert_eq!(result.goal_probability.numerator as usize, reached);
    assert_eq!(result.goal_probability.denominator, 1000);
    assert_eq!(result.confidence_level, 90);
}

#[test]
fn a_random_run_keeps_the_order_of_its_statistics() {
    for seed in 0u64..20 {
        let trials: usize = 10 + 13 * seed as usize;
        let values: Vec<f64> = outcomes(seed, trials);
        let result = reduce(&values, 5800.0);
        let smallest: f64 = values.iter().cloned().fold(f64::INFINITY, f64::min);
        let largest: f64 = values.iter().cloned().fold(f64::NEG_INFINITY, f64::max);
        let median: f64 = value(result.median_value);
        let lower: f64 = value(result.confidence_interval.0);
        let upper: f64 = value(result.confidence_interval.1);
        assert!(smallest <= lower && lower <= median);
        assert!(median <= upper && upper <= largest);
        assert!(values.contains(&lower));
        assert!(values.contains(&upper));
        assert!(values.contains(&median));
        assert!(result.goal_probability.numerator <= result.goal_probability.denominator);
        assert_eq!(result.goal_probability.denominator as usize, trials);
    }
}

#[test]
fn a_random_run_centres_on_the_outcome_without_volatility() {
    // without volatility: 3340.00 -> 4274.00 -> 5301.40 -> 6431.54
    let result = reduce(&outcomes(99, 2000), 5800.0);
    let median: f64 = value(result.median_value);
    assert!((median - 6431.54).abs() < 150.0, "median {}", median);
    assert!(value(result.confidence_interval.0) < 6431.54);
    assert!(value(result.confidence_interval.1) > 6431.54);
}
