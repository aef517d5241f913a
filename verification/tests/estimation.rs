use duck_in_the_circle::monte_carlo_simulation;
use duck_in_the_circle::new_rng;
use duck_in_the_circle::sample_point;
use duck_in_the_circle::sample_trial;

#[test]
fn sampling_invariant_points_in_disk() {
    let mut rng = new_rng();
    for _ in 0..100 {
        let t = sample_trial(&mut rng);
        assert_eq!(t.points.len(), 5);
        for p in &t.points {
            let xx = p.x as i64 * p.x as i64;
            let yy = p.y as i64 * p.y as i64;
            assert!(xx + yy <= 1_000_000_000_000);
        }
    }
}

#[test]
fn sampled_point_in_disk() {
    let mut rng = new_rng();
    for _ in 0..1000 {
        let p = sample_point(&mut rng);
        assert!(p.x as i64 * p.x as i64 + p.y as i64 * p.y as i64 <= 1_000_000_000_000);
    }
}

#[test]
fn range_invariant_single_trial() {
    let mut rng = new_rng();
    let successes = monte_carlo_simulation(1, &mut rng);
    assert!(successes <= 1);
}

#[test]
fn range_invariant_many_trials() {
    let mut rng = new_rng();
    let trials = 1000;
    let successes = monte_carlo_simulation(trials, &mut rng);
    assert!(successes <= trials);
    let probability = successes as f64 / trials as f64;
    assert!((0.0..=1.0).contains(&probability));
}

#[test]
fn convergence_to_closed_form() {
    // five uniform angles lie within a common semicircle with probability
    // 5 / 2^4 = 0.3125; with 100_000 trials the estimate sits within 0.01 of
    // it except with negligible chance (more than six standard deviations).
    let mut rng = new_rng();
    let trials = 100_000;
    let successes = monte_carlo_simulation(trials, &mut rng);
    let probability = successes as f64 / trials as f64;
    assert!((probability - 0.3125).abs() <= 0.01, "estimate was {probability}");
}
