//! Drives a stepper to collect trajectories bounded in time.
//!
//! One accumulation is `begin`, then `advance` once for each step, each time with freshly
//! drawn variates for the rates that `Stepper::current_rates` gives, until `advance` returns
//! `Ok(false)` or fails; `transitions` then holds the trajectory until the next `begin`.
use vstd::prelude::*;

use crate::steppers::Stepper;
use crate::{StateMachineError, Time, Transition};

verus! {

/// Steps a state machine until the cumulative time of its transitions exceeds a cutoff.
#[derive(Debug)]
pub struct StepUntil {
    stepper: Stepper,
    t_cutoff: Time,
    transition_buffer: Vec<Transition>,
    t_cumulative: Time,
}

impl StepUntil {
    /// The machine being driven.
    pub closed spec fn machine(&self) -> Stepper {
        self.stepper
    }

    /// The bound on the cumulative time of a trajectory.
    pub closed spec fn cutoff(&self) -> Time {
        self.t_cutoff
    }

    /// The transitions of the present accumulation, each with its time since its start.
    pub closed spec fn trajectory(&self) -> Seq<Transition> {
        self.transition_buffer@
    }

    /// The time since the start of the present accumulation, up to its last transition.
    pub closed spec fn elapsed(&self) -> Time {
        self.t_cumulative
    }

    /// The machine is well formed, and the trajectory is strictly increasing in time, ends at
    /// the elapsed time, and stays within the cutoff.
    pub open spec fn wf(&self) -> bool {
        &&& self.machine().wf()
        &&& self.elapsed() <= self.cutoff()
        &&& forall|i: int|
            0 <= i < self.trajectory().len() ==> #[trigger] self.trajectory()[i].time
                <= self.elapsed()
        &&& forall|i: int, j: int|
            0 <= i < j < self.trajectory().len() ==> #[trigger] self.trajectory()[i].time
                < #[trigger] self.trajectory()[j].time
        &&& self.trajectory().len() > 0 ==> self.trajectory().last().time == self.elapsed()
    }

    /// Pairs `stepper` with the cutoff `t_cutoff` and an empty trajectory.
    pub fn new(stepper: Stepper, t_cutoff: Time) -> (r: StepUntil)
        requires
            stepper.wf(),
        ensures
            r.wf(),
            r.machine() == stepper,
            r.cutoff() == t_cutoff,
            r.trajectory() == Seq::<Transition>::empty(),
            r.elapsed() == 0,
    {
        let transition_buffer = Vec::new();
        StepUntil { stepper, t_cutoff, transition_buffer, t_cumulative: 0 }
    }

    /// Returns the machine being driven.
    pub fn stepper(&self) -> (r: &Stepper)
        ensures
            *r == self.machine(),
    {
        &self.stepper
    }

    /// Returns the machine being driven, to step it outside an accumulation.
    pub fn stepper_mut(&mut self) -> (r: &mut Stepper)
        ensures
            *r == old(self).machine(),
            final(self).machine() == *final(r),
            final(self).cutoff() == old(self).cutoff(),
            final(self).trajectory() == old(self).trajectory(),
            final(self).elapsed() == old(self).elapsed(),
    {
        &mut self.stepper
    }

    /// Returns the cutoff.
    pub fn t_cutoff(&self) -> (r: Time)
        ensures
            r == self.cutoff(),
    {
        self.t_cutoff
    }

    /// Returns the trajectory of the present accumulation.
    pub fn transitions(&self) -> (r: &[Transition])
        ensures
            r@ == self.trajectory(),
    {
        self.transition_buffer.as_slice()
    }

    /// Starts an accumulation: clears the trajectory and the elapsed time.
    pub fn begin(&mut self)
        requires
            old(self).wf(),
        ensures
            final(self).wf(),
            final(self).machine() == old(self).machine(),
            final(self).cutoff() == old(self).cutoff(),
            final(self).trajectory() == Seq::<Transition>::empty(),
            final(self).elapsed() == 0,
    {
        self.transition_buffer.clear();
        self.t_cumulative = 0;
    }

    /// Steps the machine once with the variates `draws` (see `Stepper::step`).
    ///
    /// When the transition ends within the cutoff, counted from the start of the
    /// accumulation, it is appended with that cumulative time and the result is `Ok(true)`.
    /// Otherwise it is dropped and the result is `Ok(false)`; the machine has still taken it.
    /// When the step fails, the error is returned, the machine is left as it was, and the
    /// partial trajectory is discarded.
    pub fn advance(&mut self, ctrl: &[i64], cd: u64, draws: &[u64]) -> (r: Result<
        bool,
        StateMachineError,
    >)
        requires
            old(self).wf(),
        ensures
            final(self).wf(),
            final(self).cutoff() == old(self).cutoff(),
            r is Ok <==> old(self).machine().step_error(ctrl@, cd, draws@) is None,
            r matches Err(e) ==> {
                &&& old(self).machine().step_error(ctrl@, cd, draws@) == Some(e)
                &&& final(self).machine() == old(self).machine()
                &&& final(self).trajectory() == Seq::<Transition>::empty()
                &&& final(self).elapsed() == 0
            },
            r is Ok ==> old(self).machine().stepped_to(final(self).machine(), ctrl@, cd, draws@),
            r matches Ok(more) ==> {
                let tr = old(self).machine().next_transition(ctrl@, cd, draws@);
                let t = old(self).elapsed() + tr.time;
                &&& more == (t <= old(self).cutoff())
                &&& !more ==> final(self).trajectory() == old(self).trajectory()
                    && final(self).elapsed() == old(self).elapsed()
                &&& more ==> final(self).elapsed() == t && final(self).trajectory()
                    == old(self).trajectory().push(
                    Transition { from: tr.from, time: t as Time, to: tr.to },
                )
            },
            r == Ok::<bool, StateMachineError>(true) && old(self).machine().current_row(ctrl@, cd)[
                old(self).machine().state() as int] < 0 ==> final(self).trajectory().last().from
                != final(self).trajectory().last().to,
            r == Ok::<bool, StateMachineError>(true) ==> forall|i: int|
                0 <= i < old(self).trajectory().len() ==> #[trigger] final(self).trajectory()[i].time
                    < final(self).trajectory().last().time,
    {
        let tr = match self.stepper.step(ctrl, cd, draws) {
            Ok(tr) => tr,
            Err(e) => {
                self.transition_buffer.clear();
                self.t_cumulative = 0;
                return Err(e);
            },
        };
        if tr.time > self.t_cutoff - self.t_cumulative {
            return Ok(false);
        }
        let t = self.t_cumulative + tr.time;
        self.transition_buffer.push(Transition { from: tr.from, time: t, to: tr.to });
        self.t_cumulative = t;
        Ok(true)
    }
}

/// Every transition of a trajectory ends within the cutoff, and the cumulative times strictly
/// increase along it.
pub proof fn lemma_trajectory_within_cutoff(acc: &StepUntil)
    requires
        acc.wf(),
    ensures
        forall|i: int|
            0 <= i < acc.trajectory().len() ==> #[trigger] acc.trajectory()[i].time
                <= acc.cutoff(),
        forall|i: int, j: int|
            0 <= i < j < acc.trajectory().len() ==> #[trigger] acc.trajectory()[i].time
                < #[trigger] acc.trajectory()[j].time,
{
}

} // verus!
