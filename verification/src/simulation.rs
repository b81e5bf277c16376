//! Errors of the simulation driver.
//!
//! Validating the sample grid and stepping the satellites is arithmetic on
//! real-valued times and positions, which stays with the caller; the errors
//! they report, and how they read, are fixed here.

use vstd::prelude::*;

use crate::propagator::PropagatorError;

verus! {

/// Why a simulation could not run.
#[derive(Debug)]
pub enum SimulationError {
    /// A window or step size that does not describe a usable sample grid.
    InvalidWindow { detail: String },
    /// A satellite failed to propagate.
    Satellite { id: String, source: PropagatorError },
}

impl SimulationError {
    /// The text that describes this error.
    pub open spec fn text(&self) -> Seq<char> {
        match self {
            SimulationError::InvalidWindow { detail } => "invalid window: "@ + detail@,
            SimulationError::Satellite { id, source } => "satellite "@ + id@ + ": "@
                + source.text(),
        }
    }

    /// Describes this error for a person.
    pub fn message(&self) -> (message: String)
        ensures
            message@ == self.text(),
    {
        match self {
            SimulationError::InvalidWindow { detail } => String::from_str(
                "invalid window: ",
            ).concat(detail.as_str()),
            SimulationError::Satellite { id, source } => {
                let source_message = source.message();
                String::from_str("satellite ").concat(id.as_str()).concat(": ").concat(
                    source_message.as_str(),
                )
            },
        }
    }
}

/// Whether `simulate` may succeed on `satellite`.
pub open spec fn may_succeed<S, R, F: Fn(&S) -> Result<R, PropagatorError>>(
    simulate: F,
    satellite: &S,
) -> bool {
    exists|done: R| call_ensures(simulate, (satellite,), Ok::<R, PropagatorError>(done))
}

/// Simulates each satellite in order with `simulate`, each given with its
/// id, and collects the results.
///
/// The first satellite that fails stops the run: its error is reported as a
/// [`SimulationError::Satellite`] carrying that satellite's id, and no later
/// satellite is simulated. Otherwise there is one result per satellite, in
/// order.
pub fn simulate_each<S, R, F: Fn(&S) -> Result<R, PropagatorError>>(
    satellites: &Vec<(String, S)>,
    simulate: F,
) -> (result: Result<Vec<R>, SimulationError>)
    requires
        forall|i: int|
            0 <= i < satellites@.len() ==> call_requires(simulate, (&(#[trigger] satellites@[i]).1,)),
    ensures
        result matches Ok(results) ==> results@.len() == satellites@.len() && forall|i: int|
            0 <= i < satellites@.len() ==> call_ensures(
                simulate,
                (&(#[trigger] satellites@[i]).1,),
                Ok::<R, PropagatorError>(results@[i]),
            ),
        result matches Err(error) ==> exists|k: int|
            #![trigger satellites@[k]]
            0 <= k < satellites@.len() && (forall|i: int|
                0 <= i < k ==> may_succeed(simulate, &(#[trigger] satellites@[i]).1)) && (
            error matches SimulationError::Satellite { id, source } && id@ == satellites@[k].0@
                && call_ensures(
                simulate,
                (&satellites@[k].1,),
                Err::<R, PropagatorError>(source),
            )),
{
    let mut results: Vec<R> = Vec::new();
    let count = satellites.len();
    let mut i: usize = 0;
    while i < count
        invariant
            count == satellites@.len(),
            i <= count,
            results@.len() == i,
            forall|j: int|
                0 <= j < satellites@.len() ==> call_requires(simulate, (&(#[trigger] satellites@[j]).1,)),
            forall|j: int|
                0 <= j < i ==> call_ensures(
                    simulate,
                    (&(#[trigger] satellites@[j]).1,),
                    Ok::<R, PropagatorError>(results@[j]),
                ),
        decreases count - i,
    {
        let (id, satellite) = &satellites[i];
        let outcome = simulate(satellite);
        let ghost seen = outcome;
        match outcome {
            Ok(done) => {
                results.push(done);
            },
            Err(source) => {
                let ghost failure = source;
                let error = SimulationError::Satellite { id: id.clone(), source };
                proof {
                    assert(seen == Err::<R, PropagatorError>(failure));
                    assert forall|j: int| 0 <= j < i implies may_succeed(
                        simulate,
                        &(#[trigger] satellites@[j]).1,
                    ) by {
                        assert(call_ensures(
                            simulate,
                            (&satellites@[j].1,),
                            Ok::<R, PropagatorError>(results@[j]),
                        ));
                    }
                    assert(satellites@[i as int].1 == *satellite);
                }
                return Err(error);
            },
        }
        i = i + 1;
    }
    Ok(results)
}

} // verus!
