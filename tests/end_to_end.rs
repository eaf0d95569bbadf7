use rand::rngs::StdRng;
use rand::{Rng, SeedableRng};
use s3l::history::HistoryLog;
use s3l::order::nearest_position;
use s3l::run::{Action, Learner};
use s3l::sampler::{AvoidanceSampler, Probe, Verdict};
use s3l::vector::{check_pair, map_each, zip_with};

fn score_of(x: f64) -> u64 {
    let bits = (x + 0.0).to_bits();
    if bits >> 63 == 1 {
        !bits
    } else {
        bits | (1 << 63)
    }
}

fn performance_of(code: u64) -> f64 {
    if code >> 63 == 1 {
        f64::from_bits(code & !(1 << 63))
    } else {
        f64::from_bits(!code)
    }
}

fn uniform(dims: usize, rng: &mut StdRng) -> Vec<f64> {
    (0..dims).map(|_| rng.gen::<f64>()).collect()
}

fn distance(a: &Vec<f64>, b: &Vec<f64>) -> f64 {
    check_pair(a, b, a.len()).unwrap();
    a.iter().zip(b.iter()).map(|(x, y)| (x - y) * (x - y)).sum::<f64>().sqrt()
}

fn two_peaks(policy: &Vec<f64>) -> f64 {
    let global = distance(policy, &vec![0.7, 0.7]);
    let local = distance(policy, &vec![0.2, 0.2]);
    if global < local {
        (2.0 - global) + 1.0
    } else {
        2.0 - local
    }
}

fn upsilon(history: &HistoryLog<f64>, mip: f64, j: u32) -> f64 {
    match history.confidence_basis() {
        None => 0.0,
        Some(best) => {
            let ratio = performance_of(history.score(best)) / mip;
            if ratio >= 0.8 {
                0.8 + (5.0 * (ratio - 0.8)).powf(j as f64) / 5.0
            } else {
                ratio
            }
        }
    }
}

fn closest(history: &HistoryLog<f64>, members: &[usize], point: &Vec<f64>) -> usize {
    let codes: Vec<u64> = members.iter().map(|&i| score_of(distance(history.policy(i), point))).collect();
    members[nearest_position(&codes).unwrap()]
}

fn avoidance_point(history: &HistoryLog<f64>, mip: f64, upsilon: f64, rng: &mut StdRng) -> Vec<f64> {
    let (low, high) = history.partition(score_of(0.75 * mip));
    let mut sampler = AvoidanceSampler::new(1000);
    loop {
        let candidate = uniform(history.dims(), rng);
        let probe = if low.is_empty() || high.is_empty() {
            Probe::Unbiased
        } else {
            let near_low = history.policy(closest(history, &low, &candidate));
            let near_high = history.policy(closest(history, &high, &candidate));
            let ddelta = distance(near_low, near_high);
            if ddelta == 0.0 {
                Probe::Degenerate
            } else {
                let r = distance(&candidate, near_low) / ddelta;
                if r < 0.5 {
                    Probe::Near { rejected: rng.gen::<f64>() <= r * upsilon }
                } else {
                    Probe::Far
                }
            }
        };
        if sampler.judge(probe) == Verdict::Accept {
            return candidate;
        }
    }
}

fn propose(history: &HistoryLog<f64>, mip: f64, j: u32, rng: &mut StdRng) -> Vec<f64> {
    let dims = history.dims();
    let ups = upsilon(history, mip, j);
    let initial = if history.in_warmup() { uniform(dims, rng) } else { avoidance_point(history, mip, ups, rng) };
    let flips: Vec<bool> = (1..history.len()).map(|_| rng.gen::<f64>() < ups / 2.0).collect();
    let target = history.policy(history.probabilistic_max(&flips).unwrap());
    let delta = zip_with(target, &initial, dims, |a, b| a - b).unwrap();
    let step = ups.powf(j as f64);
    let moved = map_each(&delta, dims, |x| x * step).unwrap();
    zip_with(&initial, &moved, dims, |a, b| a + b).unwrap()
}

#[test]
fn order_codes_follow_performance_order() {
    let values = [-3.5f64, -0.0, 0.0, 1e-300, 0.5, 2.9, 3.0];
    for w in values.windows(2) {
        assert!(score_of(w[0]) <= score_of(w[1]));
        assert_eq!(score_of(w[0]) < score_of(w[1]), w[0] < w[1]);
    }
    for v in values {
        assert_eq!(performance_of(score_of(v)), v + 0.0);
    }
}

#[test]
fn two_peak_search_converges_near_global_optimum() {
    let (mip, j, threshold) = (3.1, 2u32, 2.9);
    let mut rng = StdRng::seed_from_u64(7);
    let mut learner: Learner<f64> = Learner::new(2, score_of(threshold), 500);
    let mut steps = 0usize;
    let converged = loop {
        let policy = match learner.next_action() {
            Action::Explore => uniform(2, &mut rng),
            Action::Propose => propose(learner.history(), mip, j, &mut rng),
            Action::Stop { converged } => break converged,
        };
        let performance = two_peaks(&policy);
        assert!(performance.is_finite());
        learner.record(policy, score_of(performance)).unwrap();
        steps += 1;
        assert_eq!(learner.history().len(), steps);
    };
    assert!(converged);
    let history = learner.history();
    let best = history.best().unwrap();
    assert!(performance_of(history.score(best)) >= threshold);
    assert!(distance(history.policy(best), &vec![0.7, 0.7]) <= 0.1);
}
