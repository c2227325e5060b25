use rand::Rng;
use rand_distr::{Distribution, Exp};
use rats::{Array2D, Array4D, ArrayError, StateMachineError, StepUntil, Stepper, Transition};

/// Ticks of the integer time scale in one unit of time.
const TICKS_PER_UNIT: f64 = 1e9;

/// Draws one exponential variate, in ticks, for each non-negative rate of a 1 x N row.
fn draw<R: Rng>(row: &Array2D, rng: &mut R) -> Vec<u64> {
    row.data
        .iter()
        .map(|n| {
            if *n < 0 {
                0
            } else {
                let rate = *n as f64 / row.denom as f64;
                let x: f64 = Exp::new(rate).unwrap().sample(rng);
                ((x * TICKS_PER_UNIT) as u64).max(1)
            }
        })
        .collect()
}

fn two_state() -> Array2D {
    Array2D::new(vec![-1, 1, 1, -1], (2, 2), 1).unwrap()
}

/// A machine of `n` states in which every state leads to every other at rate 1.
fn all_to_all(n: usize) -> Array2D {
    let mut data = Vec::new();
    for i in 0..n {
        for j in 0..n {
            data.push(if i == j { -1 } else { 1 });
        }
    }
    Array2D::new(data, (n, n), 1).unwrap()
}

fn step_randomly<R: Rng>(sm: &mut Stepper, ctrl: &[i64], rng: &mut R) -> Transition {
    let row = sm.current_rates(ctrl, 1).unwrap();
    let draws = draw(&row, rng);
    sm.step(ctrl, 1, &draws).unwrap()
}

#[test]
fn steppers_stepper_new() {
    let current_state = 0;
    let rate_constants = two_state();

    let result = Stepper::new(current_state, two_state(), None).unwrap();

    assert_eq!(current_state, result.current_state());
    assert_eq!(result.rate_constants().data.len(), rate_constants.data.len());
    for elements in std::iter::zip(result.rate_constants().data.iter(), rate_constants.data.iter()) {
        assert_eq!(elements.0, elements.1)
    }
}

#[test]
fn steppers_stepper_step() {
    let mut rng = rand::thread_rng();
    let mut sm = Stepper::new(0, two_state(), None).unwrap();
    let ctrl_params = vec![1];
    let old_state = sm.current_state();

    let transition = step_randomly(&mut sm, &ctrl_params, &mut rng);

    assert_ne!(old_state, sm.current_state());
    assert_ne!(transition.from(), transition.to());
}

#[test]
fn tests_stepper_new() {
    let result = Stepper::new(0, all_to_all(10), None).unwrap();
    assert_eq!(result.current_state(), 0);
    assert_eq!(result.num_states(), 10);
}

#[test]
fn tests_stepper_step() {
    let mut rng = rand::thread_rng();
    let mut sm = Stepper::new(0, all_to_all(10), None).unwrap();
    let ctrl_params = vec![1];
    let old_state = sm.current_state();

    let transition = step_randomly(&mut sm, &ctrl_params, &mut rng);

    assert_ne!(old_state, sm.current_state());
    assert_ne!(transition.from(), transition.to());
}

#[test]
fn new_keeps_initial_state() {
    for s0 in 0..10 {
        let sm = Stepper::new(s0, all_to_all(10), None).unwrap();
        assert_eq!(sm.current_state(), s0);
        assert!(!sm.stopped());
    }
}

#[test]
fn new_validates_eagerly() {
    let not_square = Array2D::new(vec![0; 6], (2, 3), 1).unwrap();
    assert_eq!(Stepper::new(0, not_square, None).unwrap_err(), StateMachineError::InvalidShape);
    let empty = Array2D::new(vec![], (0, 0), 1).unwrap();
    assert_eq!(Stepper::new(0, empty, None).unwrap_err(), StateMachineError::InvalidShape);
    assert_eq!(Stepper::new(2, two_state(), None).unwrap_err(), StateMachineError::InvalidState);
    let wrong_dims = Array4D::new(vec![0; 9], (1, 1, 3, 3), 1).unwrap();
    assert_eq!(
        Stepper::new(0, two_state(), Some(wrong_dims)).unwrap_err(),
        StateMachineError::InvalidShape
    );
    let too_high_order = Array4D::new(vec![0; 256 * 4], (1, 256, 2, 2), 1).unwrap();
    assert_eq!(
        Stepper::new(0, two_state(), Some(too_high_order)).unwrap_err(),
        StateMachineError::InvalidShape
    );
}

#[test]
fn two_states_alternate() {
    let mut rng = rand::thread_rng();
    let mut sm = Stepper::new(0, two_state(), None).unwrap();
    for i in 0..100u32 {
        let row = sm.current_rates(&[], 1).unwrap();
        assert_eq!(row.data, if i % 2 == 0 { vec![-1, 1] } else { vec![1, -1] });
        let t = step_randomly(&mut sm, &[], &mut rng);
        assert_eq!(t.from(), i % 2);
        assert_eq!(t.to(), 1 - i % 2);
        assert_eq!(sm.current_state(), 1 - i % 2);
        assert!(!sm.stopped());
    }
}

#[test]
fn two_state_hop_times_have_mean_one() {
    let mut rng = rand::thread_rng();
    let mut sm = Stepper::new(0, two_state(), None).unwrap();
    let n = 20000;
    let mut total = 0.0;
    for _ in 0..n {
        total += step_randomly(&mut sm, &[], &mut rng).time() as f64 / TICKS_PER_UNIT;
    }
    let mean = total / n as f64;
    assert!((mean - 1.0).abs() < 0.05, "mean hop time {}", mean);
}

#[test]
fn race_takes_smallest_draw() {
    let mut sm = Stepper::new(0, all_to_all(4), None).unwrap();
    let t = sm.step(&[], 1, &[0, 70, 30, 50]).unwrap();
    assert_eq!(t, Transition { from: 0, time: 30, to: 2 });
    // Ties go to the lower state; the draw of a negative rate is not read.
    let t = sm.step(&[], 1, &[40, 40, 0, 40]).unwrap();
    assert_eq!(t, Transition { from: 2, time: 40, to: 0 });
}

#[test]
fn absorbing_start_fails_with_stopped() {
    let rates = Array2D::new(vec![-1, -1, -1, -1], (2, 2), 1).unwrap();
    let mut sm = Stepper::new(0, rates, None).unwrap();
    assert_eq!(sm.current_rates(&[], 1).unwrap_err(), StateMachineError::Stopped);
    assert_eq!(sm.step(&[], 1, &[1, 1]).unwrap_err(), StateMachineError::Stopped);
    assert_eq!(sm.current_state(), 0);
    let mut acc = StepUntil::new(sm, u64::MAX);
    acc.begin();
    assert_eq!(acc.advance(&[], 1, &[1, 1]), Err(StateMachineError::Stopped));
    assert!(acc.transitions().is_empty());
}

#[test]
fn zero_rate_is_a_sampling_error() {
    let rates = Array2D::new(vec![-1, 0, 1, -1], (2, 2), 1).unwrap();
    let mut sm = Stepper::new(0, rates, None).unwrap();
    assert_eq!(sm.current_rates(&[], 1).unwrap_err(), StateMachineError::RngError);
    assert_eq!(sm.step(&[], 1, &[1, 1]).unwrap_err(), StateMachineError::RngError);
    assert_eq!(sm.current_state(), 0);
}

#[test]
fn zero_or_never_variates_are_rejected() {
    let mut sm = Stepper::new(0, all_to_all(3), None).unwrap();
    assert_eq!(sm.step(&[], 1, &[5, 0, 7]).unwrap_err(), StateMachineError::RngError);
    assert_eq!(sm.step(&[], 1, &[5, u64::MAX, 7]).unwrap_err(), StateMachineError::RngError);
    assert_eq!(sm.step(&[], 1, &[0, u64::MAX, u64::MAX]).unwrap_err(), StateMachineError::RngError);
    assert_eq!(sm.current_state(), 0);
    // The variate of a column that does not compete is not read.
    let t = sm.step(&[], 1, &[0, 9, 7]).unwrap();
    assert_eq!(t, Transition { from: 0, time: 7, to: 2 });
}

#[test]
fn positive_diagonal_can_win_the_race() {
    let rates = Array2D::new(vec![1, 1, 1, -1], (2, 2), 1).unwrap();
    let mut sm = Stepper::new(0, rates, None).unwrap();
    let t = sm.step(&[], 1, &[2, 3]).unwrap();
    assert_eq!(t, Transition { from: 0, time: 2, to: 0 });
}

#[test]
fn stopped_machine_stays_stopped() {
    let rates = Array2D::new(vec![-1, 1, -1, -1], (2, 2), 1).unwrap();
    let mut sm = Stepper::new(0, rates, None).unwrap();
    let t = sm.step(&[], 1, &[0, 5]).unwrap();
    assert_eq!(t, Transition { from: 0, time: 5, to: 1 });
    assert!(sm.stopped());
    for _ in 0..3 {
        assert_eq!(sm.step(&[], 1, &[1, 1]).unwrap_err(), StateMachineError::Stopped);
        assert_eq!(sm.current_rates(&[], 1).unwrap_err(), StateMachineError::Stopped);
        assert_eq!(sm.current_state(), 1);
        assert!(sm.stopped());
    }
}

#[test]
fn step_checks_number_of_draws() {
    let mut sm = Stepper::new(0, two_state(), None).unwrap();
    assert_eq!(
        sm.step(&[], 1, &[1, 2, 3]).unwrap_err(),
        StateMachineError::NumElems { actual: 3, expected: 2 }
    );
    assert_eq!(sm.current_state(), 0);
}

/// Rates of a 2-state machine that grow with the control parameter x:
/// 0 -> 1 at rate x + x^2, 1 -> 0 at rate x/2; the diagonal is -x.
fn parametrized() -> Stepper {
    let mut data = vec![0i64; 2 * 2 * 2];
    // (i, j, k, l) at ((i * 2 + j) * 2 + k) * 2 + l, with i = 0 and denominator 2.
    data[0] = -2; // j = 0, (0, 0)
    data[1] = 2; // j = 0, (0, 1)
    data[2] = 1; // j = 0, (1, 0)
    data[3] = -2; // j = 0, (1, 1)
    data[5] = 2; // j = 1, (0, 1)
    let coefficients = Array4D::new(data, (1, 2, 2, 2), 2).unwrap();
    Stepper::new(0, two_state(), Some(coefficients)).unwrap()
}

#[test]
fn rates_follow_control_parameters() {
    let sm = parametrized();
    // x = 3/2: 0 -> 1 at 3/2 + 9/4 = 15/4.
    let row = sm.current_rates(&[3], 2).unwrap();
    assert_eq!(row.shape, (1, 2));
    assert_eq!(row.denom, 8);
    assert_eq!(row.data, vec![-12, 30]);
    assert_eq!(row.data[1] as f64 / row.denom as f64, 3.75);
}

#[test]
fn rate_model_errors() {
    let mut sm = parametrized();
    assert_eq!(
        sm.current_rates(&[1, 2], 1).unwrap_err(),
        StateMachineError::NumElems { actual: 2, expected: 1 }
    );
    assert_eq!(
        sm.step(&[], 1, &[1, 1]).unwrap_err(),
        StateMachineError::NumElems { actual: 0, expected: 1 }
    );
    assert_eq!(
        sm.step(&[1], 0, &[1, 1]).unwrap_err(),
        StateMachineError::Array(ArrayError::ZeroDenominator)
    );
    assert_eq!(
        sm.step(&[i64::MAX], 1, &[1, 1]).unwrap_err(),
        StateMachineError::Array(ArrayError::Overflow)
    );
    assert_eq!(sm.current_state(), 0);
    let t = sm.step(&[1], 1, &[9, 4]).unwrap();
    assert_eq!(t, Transition { from: 0, time: 4, to: 1 });
}

#[test]
fn accumulate_stops_at_cutoff() {
    let sm = Stepper::new(0, two_state(), None).unwrap();
    let mut acc = StepUntil::new(sm, 10);
    acc.begin();
    assert_eq!(acc.advance(&[], 1, &[0, 3]), Ok(true));
    assert_eq!(acc.advance(&[], 1, &[3, 0]), Ok(true));
    assert_eq!(acc.advance(&[], 1, &[0, 4]), Ok(true));
    assert_eq!(acc.advance(&[], 1, &[1, 0]), Ok(false));
    assert_eq!(
        acc.transitions(),
        &[
            Transition { from: 0, time: 3, to: 1 },
            Transition { from: 1, time: 6, to: 0 },
            Transition { from: 0, time: 10, to: 1 },
        ]
    );
    // The dropped transition was still taken.
    assert_eq!(acc.stepper().current_state(), 0);
    acc.begin();
    assert!(acc.transitions().is_empty());
    assert_eq!(acc.advance(&[], 1, &[0, 11]), Ok(false));
    assert!(acc.transitions().is_empty());
    assert_eq!(acc.t_cutoff(), 10);
}

#[test]
fn accumulate_within_cutoff_and_increasing() {
    let mut rng = rand::thread_rng();
    let cutoff = (5.0 * TICKS_PER_UNIT) as u64;
    let mut acc = StepUntil::new(Stepper::new(0, all_to_all(4), None).unwrap(), cutoff);
    for _ in 0..20 {
        acc.begin();
        loop {
            let row = acc.stepper().current_rates(&[], 1).unwrap();
            let draws = draw(&row, &mut rng);
            if !acc.advance(&[], 1, &draws).unwrap() {
                break;
            }
        }
        let times: Vec<u64> = acc.transitions().iter().map(|t| t.time()).collect();
        assert!(times.iter().all(|t| *t <= cutoff));
        assert!(times.windows(2).all(|w| w[0] < w[1]));
    }
}

#[test]
fn accumulate_discards_on_error() {
    let rates = Array2D::new(vec![-1, 1, -1, -1], (2, 2), 1).unwrap();
    let mut acc = StepUntil::new(Stepper::new(0, rates, None).unwrap(), 100);
    acc.begin();
    assert_eq!(acc.advance(&[], 1, &[0, 5]), Ok(true));
    assert!(acc.stepper().stopped());
    assert_eq!(acc.advance(&[], 1, &[0, 5]), Err(StateMachineError::Stopped));
    assert!(acc.transitions().is_empty());
    assert_eq!(acc.stepper().current_state(), 1);
    acc.begin();
    assert_eq!(acc.advance(&[], 1, &[0, 5]), Err(StateMachineError::Stopped));
}

#[test]
fn stepper_mut_steps_outside_accumulation() {
    let mut acc = StepUntil::new(Stepper::new(0, two_state(), None).unwrap(), 100);
    let t = acc.stepper_mut().step(&[], 1, &[0, 7]).unwrap();
    assert_eq!(t, Transition { from: 0, time: 7, to: 1 });
    assert_eq!(acc.stepper().current_state(), 1);
}
