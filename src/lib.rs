//! Simulation of continuous-time Markov chains whose transition rates may depend on control
//! parameters.
//!
//! Rates and control parameters are exact rationals: integer numerators over a positive
//! denominator. Times are integer durations in a unit the caller chooses. The exponential
//! variates that decide each transition are drawn by the caller and handed in, so every
//! decision taken here is a function of its arguments.
use vstd::prelude::*;

pub mod accumulators;
pub mod arrays;
pub mod batch;
pub mod steppers;


pub use accumulators::StepUntil;
pub use arrays::{power, tensordot, Array2D, Array4D, ArrayError};
pub use batch::{check_batch, collect_batch};

pub use steppers::Stepper;

verus! {

/// Index of a state in the finite state space.
pub type State = u32;

/// A duration, in a unit the caller chooses. `Time::MAX` stands for "never".
pub type Time = u64;

/// Why an operation on a state machine failed.
#[derive(Debug, Clone, Copy, PartialEq, Eq)]
pub enum StateMachineError {
    /// A sequence has the wrong number of elements.
    NumElems { actual: usize, expected: usize },
    /// The rate matrix is not square, the rate coefficients do not match it, or there are
    /// more states than a `State` can name.
    InvalidShape,
    /// The initial state is not a state of the machine.
    InvalidState,
    /// The rates could not be derived from the control parameters.
    Array(ArrayError),
    /// No exponential variate exists for a competing rate of zero, or a variate handed in
    /// for a competing rate is not positive and below `Time::MAX`.
    RngError,
    /// The machine is stopped or sits in an absorbing state, and cannot step any further.
    Stopped,
}

/// A transition of a state machine from one state to another after some time.
#[derive(Debug, Clone, Copy, PartialEq, Eq)]
pub struct Transition {
    pub from: State,
    pub time: Time,
    pub to: State,
}

impl Transition {
    /// Returns the state from which the state machine transitioned.
    pub fn from(&self) -> (r: State)
        ensures
            r == self.from,
    {
        self.from
    }

    /// Returns the time at which the state machine transitioned.
    pub fn time(&self) -> (r: Time)
        ensures
            r == self.time,
    {
        self.time
    }

    /// Returns the state to which the state machine transitioned.
    pub fn to(&self) -> (r: State)
        ensures
            r == self.to,
    {
        self.to
    }
}

} // verus!
