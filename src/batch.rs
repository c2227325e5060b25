//! Index-aligned runs of many independent machines.
//!
//! A batch pairs machine `i` with parameter set `i`. The runs themselves are independent and
//! may proceed in any order; these functions fix what a batch accepts and what it returns.
use vstd::prelude::*;

use crate::{StateMachineError, Transition};

verus! {

/// Checks that a batch has one parameter set for each machine, before any machine runs.
/// Fails with `NumElems`, reporting both counts, when it does not.
pub fn check_batch(n_machines: usize, n_params: usize) -> (r: Result<(), StateMachineError>)
    ensures
        r is Ok <==> n_machines == n_params,
        r is Err ==> r == Err::<(), StateMachineError>(
            StateMachineError::NumElems { actual: n_params, expected: n_machines },
        ),
{
    if n_machines != n_params {
        return Err(StateMachineError::NumElems { actual: n_params, expected: n_machines });
    }
    Ok(())
}

/// Collects the outcomes of the runs of a batch, given in machine order.
///
/// When every run succeeded the result holds trajectory `i` at index `i`. Otherwise the batch
/// fails with the error of the first machine, in machine order, that failed; no trajectory is
/// returned.
pub fn collect_batch(results: &[Result<Vec<Transition>, StateMachineError>]) -> (r: Result<
    Vec<Vec<Transition>>,
    StateMachineError,
>)
    ensures
        r is Ok <==> forall|i: int| 0 <= i < results@.len() ==> #[trigger] results@[i] is Ok,
        r matches Ok(out) ==> {
            &&& out@.len() == results@.len()
            &&& forall|i: int|
                0 <= i < results@.len() ==> (#[trigger] results@[i] matches Ok(v) && out@[i]@
                    == v@)
        },
        r matches Err(e) ==> exists|i: int|
            {
                &&& 0 <= i < results@.len()
                &&& #[trigger] results@[i] == Err::<Vec<Transition>, StateMachineError>(e)
                &&& forall|j: int| 0 <= j < i ==> #[trigger] results@[j] is Ok
            },
{
    let mut out: Vec<Vec<Transition>> = Vec::new();
    let mut i: usize = 0;
    while i < results.len()
        invariant
            0 <= i <= results@.len(),
            out@.len() == i,
            forall|j: int|
                0 <= j < i ==> (#[trigger] results@[j] matches Ok(v) && out@[j]@ == v@),
        decreases results@.len() - i,
    {
        match &results[i] {
            Ok(v) => {
                let c = v.clone();
                assert(c@ =~= v@);
                out.push(c);
            },
            Err(e) => {
                assert(results@[i as int] == Err::<Vec<Transition>, StateMachineError>(*e));
                return Err(*e);
            },
        }
        i = i + 1;
    }
    Ok(out)
}

} // verus!
