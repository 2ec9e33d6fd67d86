use nelder_mead::score::Score;
use nelder_mead::simplex::{Action, NelderMead, OptimizeError, Vertex};

fn score_of(x: f64) -> Score {
    Score { bits: x.to_bits() }
}

fn value_of(s: Score) -> f64 {
    f64::from_bits(s.bits)
}

fn along(c: &[f64], w: &[f64], k: f64) -> Vec<f64> {
    c.iter().zip(w.iter()).map(|(ci, wi)| ci + k * (ci - wi)).collect()
}

struct Run {
    result: (Vec<f64>, f64),
    sizes: Vec<usize>,
    bests: Vec<f64>,
    iterations: u64,
    evaluations: usize,
}

#[allow(clippy::too_many_arguments)]
fn drive(
    f: &dyn Fn(&[f64]) -> f64,
    x_start: Vec<f64>,
    step: f64,
    no_improve_thr: f64,
    no_improv_break: u64,
    max_iter: u64,
    alpha: f64,
    gamma: f64,
    rho: f64,
    sigma: f64,
) -> Result<Run, OptimizeError> {
    let dim = x_start.len();
    let mut m: NelderMead<Vec<f64>> = NelderMead::new(dim, no_improv_break, max_iter)?;
    let count = std::cell::Cell::new(0usize);
    let eval = |x: Vec<f64>| {
        count.set(count.get() + 1);
        let s = f(&x);
        Vertex { position: x, score: score_of(s) }
    };
    m.add_vertex(eval(x_start.clone()));
    for i in 0..dim {
        let mut x = x_start.clone();
        x[i] += step;
        m.add_vertex(eval(x));
    }
    let mut sizes = vec![];
    let mut bests = vec![];
    let mut centroid: Vec<f64> = vec![];
    loop {
        match m.next_action() {
            Action::Iterate => {
                sizes.push(m.vertices().len());
                let limit = value_of(m.prev_best()) - no_improve_thr;
                m.start_iteration(score_of(limit))?;
                bests.push(value_of(m.best().unwrap()));
            }
            Action::Reflect => {
                let vs = m.vertices();
                let n = vs.len() - 1;
                centroid = vec![0.0; dim];
                for v in &vs[..n] {
                    for (i, c) in v.position.iter().enumerate() {
                        centroid[i] += c / n as f64;
                    }
                }
                let xr = along(&centroid, &vs[n].position, alpha);
                m.after_reflection(eval(xr));
            }
            Action::Expand => {
                let xe = along(&centroid, &m.vertices()[dim].position, gamma);
                m.after_expansion(eval(xe));
            }
            Action::Contract => {
                let xc = along(&centroid, &m.vertices()[dim].position, rho);
                m.after_contraction(eval(xc));
            }
            Action::Shrink => {
                let x1 = m.vertices()[0].position.clone();
                let mut next = vec![];
                for v in m.vertices().iter() {
                    let p: Vec<f64> =
                        x1.iter().zip(v.position.iter()).map(|(b, x)| b + sigma * (x - b)).collect();
                    next.push(eval(p));
                }
                m.after_shrink(next);
            }
            Action::Finish => {
                let iterations = m.iterations();
                let b = m.into_best();
                return Ok(Run {
                    result: (b.position, value_of(b.score)),
                    sizes,
                    bests,
                    iterations,
                    evaluations: count.get(),
                });
            }
            Action::Seed | Action::Perturb(_) => unreachable!(),
        }
    }
}

fn square(x: &[f64]) -> f64 {
    x[0] * x[0]
}

fn wave(x: &[f64]) -> f64 {
    x[0].sin() * x[1].cos() * (1.0 / (x[2].abs() + 1.0))
}

#[test]
fn converges_on_a_parabola() {
    let r = drive(&square, vec![10.0], 1.0, 1e-8, 10, 200, 1.0, 2.0, 0.5, 0.5).unwrap();
    assert!(r.result.1.abs() < 1e-6);
    assert!(r.result.0[0].abs() < 1e-3);
}

#[test]
fn reproduces_the_three_dimensional_example() {
    let r = drive(&wave, vec![0.0, 0.0, 0.0], 0.1, 10e-6, 10, 100, 1.0, 2.0, -0.5, 0.5).unwrap();
    assert_eq!(-0.9999447346002792, r.result.1);
}

#[test]
fn simplex_keeps_n_plus_one_vertices() {
    for n in 1..5usize {
        let f = |x: &[f64]| x.iter().map(|v| (v - 1.0) * (v - 1.0)).sum::<f64>();
        let r = drive(&f, vec![3.0; n], 0.5, 1e-9, 20, 60, 1.0, 2.0, 0.5, 0.5).unwrap();
        assert!(!r.sizes.is_empty());
        assert!(r.sizes.iter().all(|s| *s == n + 1));
        assert_eq!(r.result.0.len(), n);
    }
}

#[test]
fn recorded_best_never_rises() {
    let r = drive(&wave, vec![0.0, 0.0, 0.0], 0.1, 10e-6, 10, 100, 1.0, 2.0, -0.5, 0.5).unwrap();
    assert!(r.bests.len() > 2);
    for w in r.bests.windows(2) {
        assert!(w[1] <= w[0]);
    }
}

#[test]
fn zero_iterations_return_the_best_initial_vertex() {
    let f = |x: &[f64]| (x[0] - 2.0).abs() + (x[1] - 0.5).abs();
    let r = drive(&f, vec![1.0, 0.0], 1.0, 1e-8, 10, 0, 1.0, 2.0, 0.5, 0.5).unwrap();
    // initial vertices: [1,0] -> 1.5, [2,0] -> 0.5, [1,1] -> 1.5
    assert_eq!(r.result, (vec![2.0, 0.0], 0.5));
    assert_eq!(r.iterations, 0);
    assert_eq!(r.evaluations, 3);
}

#[test]
fn identical_runs_agree() {
    let a = drive(&wave, vec![0.3, -0.2, 0.1], 0.1, 1e-6, 10, 80, 1.0, 2.0, 0.5, 0.5).unwrap();
    let b = drive(&wave, vec![0.3, -0.2, 0.1], 0.1, 1e-6, 10, 80, 1.0, 2.0, 0.5, 0.5).unwrap();
    assert_eq!(a.result, b.result);
    assert_eq!(a.bests, b.bests);
    assert_eq!(a.evaluations, b.evaluations);
}

#[test]
fn constant_objective_stops_after_one_iteration() {
    let f = |_: &[f64]| 4.25;
    let r = drive(&f, vec![1.0, 2.0], 1.0, 0.0, 1, 100, 1.0, 2.0, 0.5, 0.5).unwrap();
    assert_eq!(r.iterations, 1);
    assert_eq!(r.result.1, 4.25);
    assert_eq!(r.evaluations, 3);
}

#[test]
fn empty_start_is_refused() {
    let r = drive(&square, vec![], 1.0, 1e-8, 10, 10, 1.0, 2.0, 0.5, 0.5);
    assert!(matches!(r, Err(OptimizeError::EmptyStart)));
    assert!(matches!(NelderMead::<u8>::new(0, 1, 1), Err(OptimizeError::EmptyStart)));
}

#[test]
fn nan_score_is_refused_with_its_index() {
    let f = |x: &[f64]| if x[1] > 0.5 { f64::NAN } else { x[0] };
    let r = drive(&f, vec![0.0, 0.0], 1.0, 1e-8, 10, 10, 1.0, 2.0, 0.5, 0.5);
    assert!(matches!(r, Err(OptimizeError::IncomparableScore { index: 2 })));
}

fn ready(scores: &[f64]) -> NelderMead<u32> {
    let mut m = NelderMead::new(scores.len() - 1, 10, 10).unwrap();
    for (i, s) in scores.iter().enumerate() {
        m.add_vertex(Vertex { position: i as u32, score: score_of(*s) });
    }
    assert_eq!(m.next_action(), Action::Iterate);
    assert_eq!(m.start_iteration(score_of(f64::NEG_INFINITY)), Ok(Action::Reflect));
    m
}

#[test]
fn reflection_equal_to_best_is_accepted() {
    let mut m = ready(&[2.0, 1.0, 3.0]);
    let a = m.after_reflection(Vertex { position: 7, score: score_of(1.0) });
    assert_eq!(a, Action::Iterate);
    let got: Vec<u32> = m.vertices().iter().map(|v| v.position).collect();
    assert_eq!(got, vec![1, 0, 7]);
}

#[test]
fn reflection_equal_to_second_worst_is_contracted() {
    let mut m = ready(&[2.0, 1.0, 3.0]);
    let a = m.after_reflection(Vertex { position: 7, score: score_of(2.0) });
    assert_eq!(a, Action::Contract);
    let a = m.after_contraction(Vertex { position: 8, score: score_of(3.0) });
    assert_eq!(a, Action::Shrink);
    let next = (0..3).map(|i| Vertex { position: 10 + i, score: score_of(i as f64) }).collect();
    m.after_shrink(next);
    assert_eq!(m.next_action(), Action::Iterate);
    assert_eq!(m.vertices()[2].position, 12);
}

#[test]
fn reflection_below_best_asks_for_expansion() {
    let mut m = ready(&[2.0, 1.0, 3.0]);
    assert_eq!(m.after_reflection(Vertex { position: 7, score: score_of(0.5) }), Action::Expand);
    assert_eq!(m.after_expansion(Vertex { position: 8, score: score_of(0.5) }), Action::Iterate);
    // on a tie the reflection is kept
    assert_eq!(m.vertices()[2].position, 7);
    let mut m = ready(&[2.0, 1.0, 3.0]);
    m.after_reflection(Vertex { position: 7, score: score_of(0.5) });
    m.after_expansion(Vertex { position: 8, score: score_of(0.25) });
    assert_eq!(m.vertices()[2].position, 8);
}

#[test]
fn contraction_below_worst_replaces_it() {
    let mut m = ready(&[2.0, 1.0, 3.0]);
    m.after_reflection(Vertex { position: 7, score: score_of(5.0) });
    assert_eq!(m.after_contraction(Vertex { position: 8, score: score_of(2.5) }), Action::Iterate);
    assert_eq!(m.vertices()[2].position, 8);
}

#[test]
fn sort_is_stable_on_ties() {
    let m = ready(&[1.0, 0.0, 1.0, 0.0]);
    let got: Vec<u32> = m.vertices().iter().map(|v| v.position).collect();
    assert_eq!(got, vec![1, 3, 0, 2]);
}

#[test]
fn score_order_follows_float_order() {
    let vals = [f64::NEG_INFINITY, -3.5, -1e-300, -0.0, 0.0, 1e-300, 2.0, f64::INFINITY];
    for a in vals {
        for b in vals {
            assert_eq!(score_of(a).lt(&score_of(b)), a < b);
            assert_eq!(score_of(a).le(&score_of(b)), a <= b);
        }
        assert!(!score_of(a).lt(&score_of(f64::NAN)));
        assert!(!score_of(f64::NAN).le(&score_of(a)));
    }
    assert!(score_of(f64::NAN).is_nan());
    assert!(!score_of(f64::INFINITY).is_nan());
}

#[test]
fn improvement_threshold_counts_stalls() {
    let mut m = ready(&[2.0, 1.0, 3.0]);
    // first iteration: best 1.0 is not below a limit of minus infinity
    assert_eq!(m.prev_best(), score_of(2.0));
    assert_eq!(m.iterations(), 1);
    m.after_reflection(Vertex { position: 7, score: score_of(1.5) });
    assert_eq!(m.start_iteration(score_of(2.0 - 0.5)), Ok(Action::Reflect));
    assert_eq!(m.prev_best(), score_of(1.0));
    assert_eq!(m.best(), Some(score_of(1.0)));
    assert_eq!(m.dim(), 2);
}
