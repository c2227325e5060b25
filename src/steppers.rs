//! A memoryless state machine that steps to a new state after a random time.
use vstd::prelude::*;

use crate::arrays::{
    dot, pow, power, power_fits, power_seq, tensordot, tensordot_fits, Array2D, Array4D,
    ArrayError,
};
use crate::{State, StateMachineError, Time, Transition};

verus! {

/// A rate matrix and optional rate coefficients that can drive a machine: the matrix is
/// square with at least one and at most `State::MAX + 1` states, and the coefficients, if
/// any, have shape (I, J, N, N) with an order J of at most 255.
pub open spec fn valid_model(m: Array2D, c: Option<Array4D>) -> bool {
    &&& m.wf()
    &&& m.shape.0 == m.shape.1
    &&& 1 <= m.shape.0 <= State::MAX as int + 1
    &&& c matches Some(t) ==> {
        &&& t.wf()
        &&& t.shape.2 == m.shape.0
        &&& t.shape.3 == m.shape.0
        &&& t.shape.1 <= 255
    }
}

/// The effective rates can be derived from the control parameters `ctrl / cd`: always for a
/// constant matrix; with coefficients, when there is one parameter for each of their rows,
/// `cd` is positive, and every number met on the way fits.
pub open spec fn rates_defined(c: Option<Array4D>, ctrl: Seq<i64>, cd: u64) -> bool {
    match c {
        None => true,
        Some(t) => {
            &&& ctrl.len() == t.shape.0
            &&& cd > 0
            &&& power_fits(ctrl, cd, t.shape.1 as nat)
            &&& tensordot_fits(
                power_seq(ctrl, cd as int, t.shape.1 as nat),
                pow(cd as int, t.shape.1 as nat) as u64,
                &t,
            )
        },
    }
}

/// The error met when the effective rates cannot be derived (which happens only with
/// coefficients): a wrong number of parameters, a zero denominator, or an overflow.
pub open spec fn rates_error(c: Option<Array4D>, ctrl: Seq<i64>, cd: u64) -> StateMachineError {
    match c {
        Some(t) => if ctrl.len() != t.shape.0 {
            StateMachineError::NumElems { actual: ctrl.len() as usize, expected: t.shape.0 }
        } else if cd == 0 {
            StateMachineError::Array(ArrayError::ZeroDenominator)
        } else {
            StateMachineError::Array(ArrayError::Overflow)
        },
        None => StateMachineError::Array(ArrayError::Overflow),
    }
}

/// Numerators of the effective N x N rate matrix, row-major: the constant matrix, or the
/// contraction of the powers of the control parameters against the coefficients.
pub open spec fn rate_nums(m: Array2D, c: Option<Array4D>, ctrl: Seq<i64>, cd: u64) -> Seq<i64> {
    match c {
        None => m.data@,
        Some(t) => {
            let nn = t.shape.2 * t.shape.3;
            Seq::new(
                nn as nat,
                |o: int|
                    dot(
                        power_seq(ctrl, cd as int, t.shape.1 as nat),
                        t.data@,
                        nn as int,
                        o,
                        (ctrl.len() * t.shape.1) as nat,
                    ) as i64,
            )
        },
    }
}

/// Denominator of the effective rate matrix.
pub open spec fn rate_denom(m: Array2D, c: Option<Array4D>, cd: u64) -> int {
    match c {
        None => m.denom as int,
        Some(t) => pow(cd as int, t.shape.1 as nat) * t.denom,
    }
}

/// Row `s` of a row-major matrix with `n` columns.
pub open spec fn row_of(nums: Seq<i64>, n: nat, s: nat) -> Seq<i64> {
    nums.subrange((s * n) as int, (s * n + n) as int)
}

/// No transition leaves a state whose rates are all negative.
pub open spec fn absorbing(row: Seq<i64>) -> bool {
    forall|l: int| 0 <= l < row.len() ==> #[trigger] row[l] < 0
}

/// Why no race can be run out of a state with the rates `row`: every rate is negative, so
/// the state is absorbing, or a competing rate is zero, for which no exponential variate
/// exists.
pub open spec fn row_error(row: Seq<i64>) -> Option<StateMachineError> {
    if absorbing(row) {
        Some(StateMachineError::Stopped)
    } else if exists|j: int| 0 <= j < row.len() && #[trigger] row[j] == 0 {
        Some(StateMachineError::RngError)
    } else {
        None
    }
}

/// Every column that competes, that is every column with a non-negative rate, has a
/// variate that is positive and below `Time::MAX`.
pub open spec fn draws_valid(row: Seq<i64>, draws: Seq<u64>) -> bool {
    forall|j: int| 0 <= j < row.len() && row[j] >= 0 ==> 0 < #[trigger] draws[j] < u64::MAX
}

/// A race of exponential variates over the first `n` columns of `row`, starting in state
/// `cur`: each column with a non-negative rate competes with its variate `draws[j]`, and the
/// first column whose variate is smallest and below `Time::MAX` wins. The result is the
/// winner and its variate, or `(cur, Time::MAX)` when no column wins.
pub open spec fn race(row: Seq<i64>, draws: Seq<u64>, cur: nat, n: nat) -> (nat, u64)
    decreases n,
{
    if n == 0 {
        (cur, u64::MAX)
    } else {
        let prev = race(row, draws, cur, (n - 1) as nat);
        if row[n - 1] >= 0 && draws[n - 1] < prev.1 {
            ((n - 1) as nat, draws[n - 1])
        } else {
            prev
        }
    }
}

/// The winner of a race is a competing column whose variate is no larger than that of any
/// other competitor; a race in which some competitor draws less than `Time::MAX` has a
/// winner, and so leaves `cur` when `cur` does not compete.
pub proof fn lemma_race(row: Seq<i64>, draws: Seq<u64>, cur: nat, n: nat)
    requires
        n <= row.len(),
        n <= draws.len(),
    ensures
        race(row, draws, cur, n).1 < u64::MAX ==> {
            let w = race(row, draws, cur, n).0;
            &&& w < n
            &&& row[w as int] >= 0
            &&& draws[w as int] == race(row, draws, cur, n).1
        },
        race(row, draws, cur, n).1 == u64::MAX ==> race(row, draws, cur, n).0 == cur,
        forall|j: int|
            0 <= j < n && row[j] >= 0 ==> #[trigger] draws[j] >= race(row, draws, cur, n).1,
        (exists|j: int| 0 <= j < n && row[j] >= 0 && #[trigger] draws[j] < u64::MAX) ==> race(
            row,
            draws,
            cur,
            n,
        ).1 < u64::MAX,
        (row[cur as int] < 0 && cur < n && exists|j: int|
            0 <= j < n && row[j] >= 0 && #[trigger] draws[j] < u64::MAX) ==> race(
            row,
            draws,
            cur,
            n,
        ).0 != cur,
    decreases n,
{
    if n > 0 {
        lemma_race(row, draws, cur, (n - 1) as nat);
        if exists|j: int| 0 <= j < n && row[j] >= 0 && #[trigger] draws[j] < u64::MAX {
            let j = choose|j: int| 0 <= j < n && row[j] >= 0 && #[trigger] draws[j] < u64::MAX;
            if j < n - 1 {
                assert(race(row, draws, cur, (n - 1) as nat).1 < u64::MAX);
            }
        }
    }
}

/// Copies row `s` of the square matrix `m`.
fn matrix_row(m: &Array2D, s: usize) -> (r: Vec<i64>)
    requires
        m.wf(),
        m.shape.0 == m.shape.1,
        s < m.shape.0,
    ensures
        r@ == row_of(m.data@, m.shape.0 as nat, s as nat),
        r@.len() == m.shape.0,
{
    let n = m.shape.1;
    let len = m.data.len();
    assert(s * n + n <= n * n) by (nonlinear_arith)
        requires
            s < n,
    ;
    let base = s * n;
    let mut r: Vec<i64> = Vec::new();
    let mut j: usize = 0;
    while j < n
        invariant
            m.wf(),
            m.shape.0 == m.shape.1,
            n == m.shape.1,
            len == m.data@.len(),
            base + n <= len,
            base == s * n,
            0 <= j <= n,
            r@ == m.data@.subrange(base as int, base + j),
        decreases n - j,
    {
        r.push(m.data[base + j]);
        j = j + 1;
        assert(r@ =~= m.data@.subrange(base as int, base + j));
    }
    r
}

/// Whether every rate of `row` is negative.
fn all_negative(row: &Vec<i64>) -> (r: bool)
    ensures
        r == absorbing(row@),
{
    let mut j: usize = 0;
    while j < row.len()
        invariant
            0 <= j <= row@.len(),
            forall|l: int| 0 <= l < j ==> #[trigger] row@[l] < 0,
        decreases row@.len() - j,
    {
        if row[j] >= 0 {
            return false;
        }
        j = j + 1;
    }
    true
}

/// Whether a race can be run out of a state with the rates `row` (see `row_error`).
fn check_row(row: &Vec<i64>) -> (r: Option<StateMachineError>)
    ensures
        r == row_error(row@),
{
    if all_negative(row) {
        return Some(StateMachineError::Stopped);
    }
    let mut j: usize = 0;
    while j < row.len()
        invariant
            0 <= j <= row@.len(),
            forall|l: int| 0 <= l < j ==> #[trigger] row@[l] != 0,
        decreases row@.len() - j,
    {
        if row[j] == 0 {
            return Some(StateMachineError::RngError);
        }
        j = j + 1;
    }
    None
}

/// Whether every competing column of `row` has a positive variate below `Time::MAX`.
fn check_draws(row: &Vec<i64>, draws: &[u64]) -> (r: bool)
    requires
        row@.len() == draws@.len(),
    ensures
        r == draws_valid(row@, draws@),
{
    let mut j: usize = 0;
    while j < row.len()
        invariant
            row@.len() == draws@.len(),
            0 <= j <= row@.len(),
            forall|l: int| 0 <= l < j && row@[l] >= 0 ==> 0 < #[trigger] draws@[l] < u64::MAX,
        decreases row@.len() - j,
    {
        if row[j] >= 0 && (draws[j] == 0 || draws[j] == u64::MAX) {
            return false;
        }
        j = j + 1;
    }
    true
}

/// A stopped machine is stopped for good: every further step fails with `Stopped`, and a
/// failed step leaves the machine, its present state included, as it was.
pub proof fn lemma_stopped_is_final(s: &Stepper, ctrl: Seq<i64>, cd: u64, draws: Seq<u64>)
    requires
        s.is_stopped(),
    ensures
        s.step_error(ctrl, cd, draws) == Some(StateMachineError::Stopped),
{
}

/// A machine of two states that lead to each other at rate 1, and to themselves at no rate
/// (the matrix [[-1, 1], [1, -1]]), alternates: given a positive finite variate for the other
/// state, a step succeeds, goes to the other state in the time of that variate, and leaves
/// the machine running.
pub proof fn lemma_two_states_alternate(s: &Stepper, ctrl: Seq<i64>, cd: u64, draws: Seq<u64>)
    requires
        s.wf(),
        !s.is_stopped(),
        s.coefficients() is None,
        s.constants().data@ == seq![-1i64, 1i64, 1i64, -1i64],
        draws.len() == 2,
        0 < draws[1 - s.state()] < u64::MAX,
    ensures
        s.n() == 2,
        s.step_error(ctrl, cd, draws) is None,
        s.next_transition(ctrl, cd, draws) == (Transition {
            from: s.state() as State,
            time: draws[1 - s.state()],
            to: (1 - s.state()) as State,
        }),
        !absorbing(row_of(s.rate_nums(ctrl, cd), s.n(), (1 - s.state()) as nat)),
{
    assert(s.n() == 2) by {
        let n = s.n();
        assert(n * n == 4);
        assert(n == 2) by (nonlinear_arith)
            requires
                n * n == 4,
                n >= 1,
        ;
    }
    let nums = s.rate_nums(ctrl, cd);
    let cur = s.state();
    let other = (1 - cur) as nat;
    let row = row_of(nums, 2, cur);
    let orow = row_of(nums, 2, other);
    assert(nums == seq![-1i64, 1i64, 1i64, -1i64]);
    assert(nums[0] == -1 && nums[1] == 1 && nums[2] == 1 && nums[3] == -1);
    if cur == 0 {
        assert(row == nums.subrange(0, 2));
        assert(orow == nums.subrange(2, 4));
        assert(row =~= seq![-1i64, 1i64]);
        assert(orow =~= seq![1i64, -1i64]);
    } else {
        assert(row == nums.subrange(2, 4));
        assert(orow == nums.subrange(0, 2));
        assert(row =~= seq![1i64, -1i64]);
        assert(orow =~= seq![-1i64, 1i64]);
    }
    assert(row[other as int] > 0);
    assert(orow[cur as int] > 0);
    assert(!absorbing(row));
    assert(row_error(row) is None);
    assert(draws_valid(row, draws));
    reveal_with_fuel(race, 3);
}

/// A memoryless state machine that steps to a new random state after a random time.
#[derive(Debug)]
pub struct Stepper {
    current_state: State,
    rate_constants: Array2D,
    rate_coefficients: Option<Array4D>,
    stopped: bool,
}

impl Stepper {
    /// The present state.
    pub closed spec fn state(&self) -> nat {
        self.current_state as nat
    }

    /// Whether the machine has reached an absorbing state.
    pub closed spec fn is_stopped(&self) -> bool {
        self.stopped
    }

    /// The constant rate matrix.
    pub closed spec fn constants(&self) -> Array2D {
        self.rate_constants
    }

    /// The rate coefficients, which override the constant matrix when present.
    pub closed spec fn coefficients(&self) -> Option<Array4D> {
        self.rate_coefficients
    }

    /// The number of states.
    pub open spec fn n(&self) -> nat {
        self.constants().shape.0 as nat
    }

    /// The model is valid and the present state is one of its states.
    pub open spec fn wf(&self) -> bool {
        &&& valid_model(self.constants(), self.coefficients())
        &&& self.state() < self.n()
    }

    /// The effective rates can be derived from the control parameters `ctrl / cd`.
    pub open spec fn rates_defined(&self, ctrl: Seq<i64>, cd: u64) -> bool {
        rates_defined(self.coefficients(), ctrl, cd)
    }

    /// Numerators of the effective rate matrix for the control parameters `ctrl / cd`.
    pub open spec fn rate_nums(&self, ctrl: Seq<i64>, cd: u64) -> Seq<i64> {
        rate_nums(self.constants(), self.coefficients(), ctrl, cd)
    }

    /// Numerators of the effective rates out of the present state.
    pub open spec fn current_row(&self, ctrl: Seq<i64>, cd: u64) -> Seq<i64> {
        row_of(self.rate_nums(ctrl, cd), self.n(), self.state())
    }

    /// The transition that `step` takes with the variates `draws`.
    pub open spec fn next_transition(&self, ctrl: Seq<i64>, cd: u64, draws: Seq<u64>) -> Transition {
        let w = race(self.current_row(ctrl, cd), draws, self.state(), self.n());
        Transition { from: self.state() as State, time: w.1, to: w.0 as State }
    }

    /// The error that `current_rates` fails with, if any: the machine is stopped, the rates
    /// cannot be derived, or no race can be run out of the present state (see `row_error`).
    pub open spec fn rates_failure(&self, ctrl: Seq<i64>, cd: u64) -> Option<StateMachineError> {
        if self.is_stopped() {
            Some(StateMachineError::Stopped)
        } else if !self.rates_defined(ctrl, cd) {
            Some(rates_error(self.coefficients(), ctrl, cd))
        } else {
            row_error(self.current_row(ctrl, cd))
        }
    }

    /// The error that `step` fails with, if any: that of `current_rates`, then `NumElems`
    /// when `draws` does not hold one variate for each state, then `RngError` when a
    /// competing variate is zero or `Time::MAX`.
    pub open spec fn step_error(&self, ctrl: Seq<i64>, cd: u64, draws: Seq<u64>) -> Option<
        StateMachineError,
    > {
        if self.rates_failure(ctrl, cd) is Some {
            self.rates_failure(ctrl, cd)
        } else if draws.len() != self.n() {
            Some(
                StateMachineError::NumElems {
                    actual: draws.len() as usize,
                    expected: self.n() as usize,
                },
            )
        } else if !draws_valid(self.current_row(ctrl, cd), draws) {
            Some(StateMachineError::RngError)
        } else {
            None
        }
    }

    /// `next` is this machine after a successful `step` with the variates `draws`: it sits in
    /// the new state, and is stopped exactly when every rate out of that state is negative.
    pub open spec fn stepped_to(&self, next: Stepper, ctrl: Seq<i64>, cd: u64, draws: Seq<u64>) -> bool {
        let to = self.next_transition(ctrl, cd, draws).to as nat;
        &&& next.state() == to
        &&& next.is_stopped() == absorbing(row_of(self.rate_nums(ctrl, cd), self.n(), to))
        &&& next.constants() == self.constants()
        &&& next.coefficients() == self.coefficients()
    }

    /// Builds a machine in `current_state`, checking eagerly that the rate matrix is square,
    /// that the rate coefficients, if any, have shape (I, J, N, N) with J at most 255, and
    /// that `current_state` is below N.
    pub fn new(
        current_state: State,
        rate_constants: Array2D,
        rate_coefficients: Option<Array4D>,
    ) -> (r: Result<Stepper, StateMachineError>)
        requires
            rate_constants.wf(),
            rate_coefficients matches Some(t) ==> t.wf(),
        ensures
            r is Ok <==> valid_model(rate_constants, rate_coefficients) && current_state
                < rate_constants.shape.0,
            r == Err::<Stepper, StateMachineError>(StateMachineError::InvalidShape)
                <==> !valid_model(rate_constants, rate_coefficients),
            r == Err::<Stepper, StateMachineError>(StateMachineError::InvalidState)
                <==> valid_model(rate_constants, rate_coefficients) && current_state
                >= rate_constants.shape.0,
            r matches Ok(s) ==> {
                &&& s.wf()
                &&& s.state() == current_state
                &&& !s.is_stopped()
                &&& s.constants() == rate_constants
                &&& s.coefficients() == rate_coefficients
            },
    {
        let n = rate_constants.shape.0;
        if n != rate_constants.shape.1 || n == 0 || n - 1 > State::MAX as usize {
            return Err(StateMachineError::InvalidShape);
        }
        match &rate_coefficients {
            Some(t) => {
                if t.shape.2 != n || t.shape.3 != n || t.shape.1 > 255 {
                    return Err(StateMachineError::InvalidShape);
                }
            },
            None => {},
        }
        if current_state as usize >= n {
            return Err(StateMachineError::InvalidState);
        }
        Ok(Stepper { current_state, rate_constants, rate_coefficients, stopped: false })
    }

    /// Computes the effective rate matrix for the control parameters `ctrl / cd`: the
    /// constant matrix, or the powers of the parameters up to the order of the coefficients
    /// contracted against them.
    fn compute_rates(&self, ctrl: &[i64], cd: u64) -> (r: Result<Array2D, StateMachineError>)
        requires
            self.wf(),
        ensures
            r is Ok <==> self.rates_defined(ctrl@, cd),
            r matches Err(e) ==> e == rates_error(self.coefficients(), ctrl@, cd),
            r matches Ok(m) ==> {
                &&& m.wf()
                &&& m.shape == (self.n() as usize, self.n() as usize)
                &&& m.data@ == self.rate_nums(ctrl@, cd)
                &&& m.denom == rate_denom(self.constants(), self.coefficients(), cd)
            },
    {
        match &self.rate_coefficients {
            None => Ok(self.rate_constants.clone()),
            Some(t) => {
                let (ti, tj, tk, tl) = t.shape;
                if ctrl.len() != ti {
                    return Err(
                        StateMachineError::NumElems { actual: ctrl.len(), expected: ti },
                    );
                }
                let tlen = t.data.len();
                let mlen = self.rate_constants.data.len();
                assert(ti * tj <= ti * tj * tk * tl) by (nonlinear_arith)
                    requires
                        tk >= 1,
                        tl >= 1,
                ;
                assert(ctrl@.len() * tj <= usize::MAX);
                assert(tk * tl == mlen);
                let order = tj as u8;
                let powers = match power(ctrl, cd, order) {
                    Ok(p) => p,
                    Err(e) => {
                        return Err(StateMachineError::Array(e));
                    },
                };
                match tensordot(&powers, t) {
                    Ok(m) => {
                        let ghost nums = self.rate_nums(ctrl@, cd);
                        assert(m.data@ =~= nums);
                        Ok(m)
                    },
                    Err(e) => Err(StateMachineError::Array(e)),
                }
            },
        }
    }

    /// Returns the effective rates out of the present state for the control parameters
    /// `ctrl / cd`, as a 1 x N array: the rates that a caller draws exponential variates for
    /// before calling `step`, one for each non-negative rate.
    ///
    /// Fails with `Stopped` on a stopped machine or one whose present state is absorbing,
    /// with the rate model's error when the rates cannot be derived, and with `RngError` when
    /// a competing rate is zero.
    pub fn current_rates(&self, ctrl: &[i64], cd: u64) -> (r: Result<Array2D, StateMachineError>)
        requires
            self.wf(),
        ensures
            r is Ok <==> self.rates_failure(ctrl@, cd) is None,
            r matches Err(e) ==> self.rates_failure(ctrl@, cd) == Some(e),
            r matches Ok(row) ==> {
                &&& row.wf()
                &&& row.shape == (1usize, self.n() as usize)
                &&& row.data@ == self.current_row(ctrl@, cd)
                &&& row.denom == rate_denom(self.constants(), self.coefficients(), cd)
            },
    {
        if self.stopped {
            return Err(StateMachineError::Stopped);
        }
        let rates = self.compute_rates(ctrl, cd)?;
        let n = rates.shape.0;
        let data = matrix_row(&rates, self.current_state as usize);
        match check_row(&data) {
            Some(e) => Err(e),
            None => Ok(Array2D { data, shape: (1, n), denom: rates.denom }),
        }
    }

    /// Steps the machine by a race of exponential variates.
    ///
    /// `draws[j]` is the variate drawn for column `j` of the present state's effective rates
    /// (see `current_rates`); it is read only where that rate is non-negative. The first
    /// column with the smallest variate becomes the new state, and its variate the
    /// transition's time. The machine stops when every rate out of its new state is negative.
    ///
    /// Fails, leaving the machine as it was, as `current_rates` does (`Stopped` on a stopped
    /// machine or out of an absorbing state), with `NumElems` when `draws` does not hold one
    /// variate for each state, and with `RngError` when a competing variate is zero or
    /// `Time::MAX`. So a successful step always takes a competing column, in a positive finite
    /// time, and leaves its state unless that state's own rate competes and wins.
    pub fn step(&mut self, ctrl: &[i64], cd: u64, draws: &[u64]) -> (r: Result<
        Transition,
        StateMachineError,
    >)
        requires
            old(self).wf(),
        ensures
            final(self).wf(),
            r is Ok <==> old(self).step_error(ctrl@, cd, draws@) is None,
            r matches Err(e) ==> old(self).step_error(ctrl@, cd, draws@) == Some(e)
                && *final(self) == *old(self),
            r matches Ok(tr) ==> tr == old(self).next_transition(ctrl@, cd, draws@)
                && old(self).stepped_to(*final(self), ctrl@, cd, draws@),
            r matches Ok(tr) ==> {
                &&& 0 < tr.time < u64::MAX
                &&& tr.to < old(self).n()
                &&& old(self).current_row(ctrl@, cd)[tr.to as int] > 0
            },
            r matches Ok(tr) ==> (old(self).current_row(ctrl@, cd)[old(self).state() as int] < 0
                ==> tr.from != tr.to),
    {
        if self.stopped {
            return Err(StateMachineError::Stopped);
        }
        let rates = self.compute_rates(ctrl, cd)?;
        let n = rates.shape.0;
        let cur = self.current_state as usize;
        let row = matrix_row(&rates, cur);
        match check_row(&row) {
            Some(e) => {
                return Err(e);
            },
            None => {},
        }
        if draws.len() != n {
            return Err(StateMachineError::NumElems { actual: draws.len(), expected: n });
        }
        if !check_draws(&row, draws) {
            return Err(StateMachineError::RngError);
        }
        let ghost grow = row@;
        let mut new_state: usize = cur;
        let mut transition_time: Time = u64::MAX;
        let mut j: usize = 0;
        while j < n
            invariant
                n == row@.len(),
                n == draws@.len(),
                grow == row@,
                cur < n,
                0 <= j <= n,
                new_state < n,
                (new_state as nat, transition_time) == race(grow, draws@, cur as nat, j as nat),
            decreases n - j,
        {
            if row[j] >= 0 && draws[j] < transition_time {
                new_state = j;
                transition_time = draws[j];
            }
            j = j + 1;
        }
        proof {
            lemma_race(grow, draws@, cur as nat, n as nat);
            let l = choose|l: int| 0 <= l < grow.len() && grow[l] >= 0;
            assert(draws@[l] < u64::MAX);
            assert(grow[new_state as int] != 0);
        }
        let old_state = self.current_state;
        self.current_state = new_state as State;
        let landing = matrix_row(&rates, new_state);
        if all_negative(&landing) {
            self.stopped = true;
        }
        Ok(Transition { from: old_state, time: transition_time, to: new_state as State })
    }

    /// Returns the number of states.
    pub fn num_states(&self) -> (r: usize)
        ensures
            r == self.n(),
    {
        self.rate_constants.shape.0
    }

    /// Returns the constant rate matrix.
    pub fn rate_constants(&self) -> (r: &Array2D)
        ensures
            *r == self.constants(),
    {
        &self.rate_constants
    }

    /// Returns the present state.
    pub fn current_state(&self) -> (r: State)
        ensures
            r == self.state(),
    {
        self.current_state
    }

    /// Returns whether the machine has reached an absorbing state.
    pub fn stopped(&self) -> (r: bool)
        ensures
            r == self.is_stopped(),
    {
        self.stopped
    }
}

} // verus!
