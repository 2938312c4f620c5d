use rsi::ascent::{Ascent, Guard, Report, StopReason};
use rsi::cma::{find_champion, population_size, ranking};
use rsi::convergence::{ConvergenceDetector, Trend};
use rsi::criticality::{assess, FailureMode};
use rsi::measure::Measure;

fn m(x: f64) -> Measure {
    Measure::from_bits(x.to_bits())
}

fn value(x: &Measure) -> f64 {
    f64::from_bits(x.bits)
}

// --- measures ---

#[test]
fn measures_compare_as_the_numbers_do() {
    let numbers = [
        f64::NEG_INFINITY,
        -1.5e300,
        -2.0,
        -1e-320,
        -0.0,
        0.0,
        5e-324,
        1e-9,
        0.5,
        1.0,
        7.25e100,
        f64::INFINITY,
        f64::NAN,
    ];
    for a in numbers {
        for b in numbers {
            assert_eq!(m(a).is_below(&m(b)), a < b, "{a} < {b}");
            assert_eq!(m(a).is_at_least(&m(b)), a >= b, "{a} >= {b}");
        }
        assert_eq!(m(a).is_nan(), a.is_nan());
        assert_eq!(m(a).is_finite(), a.is_finite());
        assert_eq!(m(a).negated().bits, (-a).to_bits());
    }
    assert_eq!(Measure::zero().bits, 0.0f64.to_bits());
}

// --- convergence ---

fn feed(d: &mut ConvergenceDetector, vals: &[f64]) {
    for &v in vals {
        d.push(m(v));
    }
}

fn slope(d: &ConvergenceDetector) -> f64 {
    let n = d.len();
    if n < 2 {
        return 0.0;
    }
    let ys: Vec<f64> = (0..n).map(|i| value(&d.value_at(i))).collect();
    let mean_x = (n as f64 - 1.0) / 2.0;
    let mean_y = ys.iter().sum::<f64>() / n as f64;
    let mut num = 0.0;
    let mut den = 0.0;
    for (i, &y) in ys.iter().enumerate() {
        let dx = i as f64 - mean_x;
        num += dx * (y - mean_y);
        den += dx * dx;
    }
    num / den
}

fn trend(d: &ConvergenceDetector, eps: f64) -> Trend {
    d.trend(&m(slope(d)), &m(eps))
}

#[test]
fn detects_improving() {
    let mut d = ConvergenceDetector::new(5);
    feed(&mut d, &[0.1, 0.2, 0.3, 0.4, 0.5]);
    assert!(d.filled());
    assert!(slope(&d) > 0.05);
    assert_eq!(trend(&d, 1e-3), Trend::Improving);
}

#[test]
fn detects_plateau() {
    let mut d = ConvergenceDetector::new(5);
    feed(&mut d, &[0.50, 0.501, 0.4995, 0.5005, 0.50]);
    assert_eq!(trend(&d, 1e-2), Trend::Plateau);
}

#[test]
fn detects_diverging() {
    let mut d = ConvergenceDetector::new(4);
    feed(&mut d, &[0.6, 0.5, 0.4, 0.3]);
    assert_eq!(trend(&d, 1e-3), Trend::Diverging);
}

#[test]
fn window_slides() {
    let mut d = ConvergenceDetector::new(3);
    feed(&mut d, &[1.0, 2.0, 3.0, 4.0, 5.0]);
    assert_eq!(slope(&d).round(), 1.0);
    assert_eq!(value(&d.value_at(0)), 3.0);
    assert_eq!(d.len(), 3);
}

#[test]
fn window_is_two_at_the_least() {
    let mut d = ConvergenceDetector::new(0);
    feed(&mut d, &[1.0]);
    assert!(!d.filled());
    feed(&mut d, &[1.0]);
    assert!(d.filled());
}

// --- ascent ---

struct Toy {
    target: i64,
}

impl Toy {
    fn score(&self, c: i64) -> f64 {
        -((self.target - c).abs() as f64)
    }
    fn refine(&self, c: i64, iter: usize) -> i64 {
        if iter % 2 == 0 {
            c + 1
        } else {
            c - 3
        }
    }
}

fn ascend(score: impl Fn(i64) -> f64, refine: impl Fn(i64, usize) -> i64, init: i64, guard: &Guard) -> (i64, Report) {
    let mut ascent = Ascent::start(init, m(score(init)), guard);
    while ascent.stop.is_none() {
        let next = refine(ascent.best, ascent.iters);
        let best = value(&ascent.history[ascent.history.len() - 1]);
        let bar = m(best + value(&guard.min_delta));
        ascent.observe(next, m(score(next)), bar, guard);
    }
    ascent.finish(guard)
}

fn lowered(report: &Report) -> Vec<Measure> {
    report.history.iter().map(|x| m(value(x) - 1e-12)).collect()
}

#[test]
fn elitist_is_monotone_and_bounded() {
    let task = Toy { target: 20 };
    let guard = Guard::new().max_iters(50);
    let (best, report) = ascend(|c| task.score(c), |c, i| task.refine(c, i), 0, &guard);
    assert!(report.is_monotone(&lowered(&report)), "aucune régression ne doit être adoptée");
    assert!(report.iters <= 50, "terminaison bornée");
    assert_eq!(report.history.len(), report.iters + 1);
    assert!(best <= 20);
    assert!(value(&report.best()) >= task.score(0));
}

#[test]
fn stops_on_target() {
    let task = Toy { target: 5 };
    let guard = Guard::new().max_iters(100).target(m(0.0));
    let (_b, report) = ascend(|c| task.score(c), |c, i| task.refine(c, i), 0, &guard);
    assert_eq!(report.stop, StopReason::Target);
    assert!(value(&report.best()) >= 0.0);
    assert!(report.iters < 100);
}

#[test]
fn stops_on_patience() {
    let guard = Guard::new().max_iters(100).patience(3);
    let (_b, report) = ascend(|c| -(c.abs() as f64), |c, _i| c + 5, 0, &guard);
    assert_eq!(report.stop, StopReason::Patience);
    assert_eq!(report.accepted, 0);
    assert!(report.is_monotone(&lowered(&report)));
    assert_eq!(report.iters, 3);
}

#[test]
fn no_iteration_allowed_ends_at_once() {
    let guard = Guard::new().max_iters(0);
    let (best, report) = ascend(|c| c as f64, |c, _| c + 1, 7, &guard);
    assert_eq!(best, 7);
    assert_eq!(report.stop, StopReason::MaxIters);
    assert_eq!(report.history.len(), 1);
}

#[test]
fn gains_below_the_least_are_not_adopted() {
    let guard = Guard::new().max_iters(4).min_delta(m(1.5));
    let (best, report) = ascend(|c| c as f64, |c, _| c + 1, 0, &guard);
    assert_eq!(best, 0);
    assert_eq!(report.accepted, 0);
    assert_eq!(Guard::new().min_delta(m(-1.0)).min_delta.bits, 0);
    assert!(!Report { history: vec![m(1.0), m(0.5)], iters: 1, accepted: 0, stop: StopReason::MaxIters }
        .is_monotone(&[m(1.0), m(0.5)]));
}

#[test]
fn adoptions_are_the_rises_of_the_history() {
    let task = Toy { target: 4 };
    let guard = Guard::new().max_iters(50).patience(5);
    let (_best, report) = ascend(|c| task.score(c), |c, i| task.refine(c, i), 0, &guard);
    let rises = report.history.windows(2).filter(|w| value(&w[1]) > value(&w[0])).count();
    assert_eq!(report.accepted, rises);
    assert_eq!(report.accepted, 4);
    assert_eq!(report.stop, StopReason::Patience);
    let tail = &report.history[report.history.len() - 6..];
    assert!(tail.iter().all(|x| value(x) == 0.0));
}

// --- criticality ---

#[test]
fn value_drift_dominates_when_unaligned() {
    let autonomy: f64 = 0.9;
    let alignment: f64 = 0.1;
    let drift = 1.0 * (autonomy - alignment).clamp(0.0, 1.0) * 0.7;
    let rpns = [m(0.0), m(0.0), m(drift), m(0.0), m(0.0), m(0.0), m(0.0)];
    let r = assess(&rpns);
    assert_eq!(r.most_critical, FailureMode::ValueDrift);
    assert_eq!(r.most_critical.name(), "derive_valeurs");
    assert_eq!(value(&r.max_rpn), drift);
}

#[test]
fn first_of_equal_modes_leads_and_none_means_the_first() {
    let quiet = [m(0.0); 7];
    assert_eq!(assess(&quiet).most_critical, FailureMode::Regression);
    let even = [m(0.0), m(0.2), m(0.0), m(0.2), m(0.0), m(0.0), m(0.2)];
    assert_eq!(assess(&even).most_critical, FailureMode::Instability);
    let last = [m(0.1), m(0.2), m(0.0), m(0.2), m(0.0), m(0.0), m(0.9)];
    assert_eq!(assess(&last).most_critical, FailureMode::Wireheading);
}

// --- evolution strategy ---

#[test]
fn population_ranks_by_fitness_then_place() {
    let fits = [m(1.0), m(3.0), m(-2.0), m(3.0)];
    assert_eq!(ranking(&fits), vec![1, 3, 0, 2]);
    assert_eq!(find_champion(&m(2.0), &fits), Some(1));
    assert_eq!(find_champion(&m(3.0), &fits), None);
    assert_eq!(population_size(0, 9).lambda, 9);
    assert_eq!(population_size(2, 9).lambda, 4);
    assert_eq!(population_size(10, 9).mu, 5);
}
