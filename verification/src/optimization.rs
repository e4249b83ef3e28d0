//! The decisions of the gradient descent that aligns a reference cell with a
//! simulated one. The descent's arithmetic (quaternions, distances, line
//! searches) is the caller's; after each line search the caller reports
//! whether the new squared distance failed to improve on the current one,
//! and the descent decides what happens next.

use vstd::prelude::*;

use crate::types::{Error, ErrorView};

verus! {

/// How far a descent has come: the line searches done, and how many times
/// in a row the step size was shrunk.
#[derive(Clone, Copy, Debug, PartialEq, Eq, Structural)]
pub struct DescentState {
    pub iteration: usize,
    pub step_size_adjustments: usize,
}

/// The bounds of a descent: the number of line searches, and the number of
/// shrinkings of the step size in a row.
#[derive(Clone, Copy, Debug, PartialEq, Eq, Structural)]
pub struct DescentLimits {
    pub max_iter: usize,
    pub max_step_size_adjustments: usize,
}

/// What the descent does after a line search.
#[derive(Clone, Copy, Debug, PartialEq, Eq, Structural)]
pub enum DescentAction {
    /// Keep the current rotation and divide the step size by five.
    ShrinkStep,
    /// Take the rotation and distance the line search found.
    Accept,
    /// Stop with the current rotation.
    Stop,
}

/// The state before the first line search.
pub open spec fn descent_initial() -> DescentState {
    DescentState { iteration: 0, step_size_adjustments: 0 }
}

/// Whether the descent runs another line search.
pub open spec fn descent_running(state: DescentState, limits: DescentLimits) -> bool {
    state.iteration < limits.max_iter
}

/// The next state and the action after a line search whose distance was no
/// better than the current one (`not_better`) or was.
pub open spec fn descent_next(state: DescentState, not_better: bool, limits: DescentLimits) -> (DescentState, DescentAction) {
    if not_better && state.step_size_adjustments < limits.max_step_size_adjustments {
        (
            DescentState {
                iteration: (state.iteration + 1) as usize,
                step_size_adjustments: (state.step_size_adjustments + 1) as usize,
            },
            DescentAction::ShrinkStep,
        )
    } else if not_better {
        (state, DescentAction::Stop)
    } else {
        (DescentState { iteration: (state.iteration + 1) as usize, step_size_adjustments: 0 }, DescentAction::Accept)
    }
}

/// The state before the first line search.
pub fn descent_start() -> (r: DescentState)
    ensures
        r == descent_initial(),
{
    DescentState { iteration: 0, step_size_adjustments: 0 }
}

/// Whether the descent runs another line search.
pub fn descent_continues(state: DescentState, limits: DescentLimits) -> (r: bool)
    ensures
        r == descent_running(state, limits),
{
    state.iteration < limits.max_iter
}

/// Decides what follows a line search (see [`descent_next`]). Every action
/// but `Stop` uses up one of the line searches, and the shrinkings in a row
/// never exceed their bound.
pub fn descent_step(state: DescentState, not_better: bool, limits: DescentLimits) -> (r: (DescentState, DescentAction))
    requires
        descent_running(state, limits),
    ensures
        r == descent_next(state, not_better, limits),
        r.1 != DescentAction::Stop ==> r.0.iteration == state.iteration + 1,
        state.step_size_adjustments <= limits.max_step_size_adjustments ==> r.0.step_size_adjustments <= limits.max_step_size_adjustments,
        !not_better ==> r.1 == DescentAction::Accept && r.0.iteration == state.iteration + 1 && r.0.step_size_adjustments == 0,
        not_better ==> r.1 != DescentAction::Accept,
{
    if not_better && state.step_size_adjustments < limits.max_step_size_adjustments {
        (
            DescentState { iteration: state.iteration + 1, step_size_adjustments: state.step_size_adjustments + 1 },
            DescentAction::ShrinkStep,
        )
    } else if not_better {
        (state, DescentAction::Stop)
    } else {
        (DescentState { iteration: state.iteration + 1, step_size_adjustments: 0 }, DescentAction::Accept)
    }
}

/// What a line search decides, over every state that still runs: an
/// improving line search is always taken (its rotation and distance are
/// accepted, one more line search is counted and the shrinkings in a row
/// start again from zero); one that does not improve is never taken: the
/// step size shrinks, counting a line search and a shrinking, while the
/// shrinkings in a row are below their bound, and otherwise the descent
/// stops where it is.
pub proof fn lemma_descent_decisions(state: DescentState, not_better: bool, limits: DescentLimits)
    requires
        descent_running(state, limits),
    ensures
        !not_better ==> ({
            let (next, action) = descent_next(state, not_better, limits);
            action == DescentAction::Accept && next.iteration == state.iteration + 1 && next.step_size_adjustments == 0
        }),
        not_better && state.step_size_adjustments < limits.max_step_size_adjustments ==> ({
            let (next, action) = descent_next(state, not_better, limits);
            action == DescentAction::ShrinkStep && next.iteration == state.iteration + 1
                && next.step_size_adjustments == state.step_size_adjustments + 1
        }),
        not_better && state.step_size_adjustments >= limits.max_step_size_adjustments ==> descent_next(
            state,
            not_better,
            limits,
        ) == (state, DescentAction::Stop),
{
}

/// The descent ends: from any state with the shrinkings in bound, every
/// sequence of line-search outcomes stops the descent, or exhausts its line
/// searches, within `max_iter - iteration` steps.
pub open spec fn descent_after(state: DescentState, outcomes: Seq<bool>, limits: DescentLimits) -> DescentState
    decreases outcomes.len(),
{
    if outcomes.len() == 0 || !descent_running(state, limits) {
        state
    } else {
        let (next, action) = descent_next(state, outcomes[0], limits);
        if action == DescentAction::Stop {
            next
        } else {
            descent_after(next, outcomes.drop_first(), limits)
        }
    }
}

/// Whether the descent has ended in `state`: its line searches are used up,
/// or the last outcome stopped it.
pub open spec fn descent_ended(state: DescentState, last_not_better: bool, limits: DescentLimits) -> bool {
    !descent_running(state, limits) || descent_next(state, last_not_better, limits).1 == DescentAction::Stop
}

/// A descent runs at most `max_iter` line searches: after that many
/// outcomes, whatever they were, no line search is left, or the descent has
/// stopped on the last one.
pub proof fn lemma_descent_terminates(state: DescentState, outcomes: Seq<bool>, limits: DescentLimits)
    requires
        state.iteration <= limits.max_iter,
        outcomes.len() >= limits.max_iter - state.iteration,
    ensures
        !descent_running(descent_after(state, outcomes, limits), limits)
            || exists|k: int| 0 <= k < outcomes.len() && descent_ended(descent_after(state, outcomes, limits), #[trigger] outcomes[k], limits),
    decreases outcomes.len(),
{
    if outcomes.len() == 0 || !descent_running(state, limits) {
    } else {
        let (next, action) = descent_next(state, outcomes[0], limits);
        if action == DescentAction::Stop {
            assert(descent_ended(next, outcomes[0], limits));
        } else {
            lemma_descent_terminates(next, outcomes.drop_first(), limits);
            let after = descent_after(next, outcomes.drop_first(), limits);
            if descent_running(after, limits) {
                let k = choose|k: int| 0 <= k < outcomes.drop_first().len() && descent_ended(after, #[trigger] outcomes.drop_first()[k], limits);
                assert(outcomes[k + 1] == outcomes.drop_first()[k]);
            }
        }
    }
}

/// The exponent of the `i`-th step of a line search, which must fit in an
/// `i32`.
pub fn line_search_exponent(i: usize) -> (r: Result<i32, Error>)
    ensures
        i <= i32::MAX ==> r == Ok::<i32, Error>(i as i32),
        i > i32::MAX ==> (r matches Err(e) && e@ == ErrorView::Generic("Could not convert usize to i32"@)),
{
    if i <= 2147483647usize {
        Ok(i as i32)
    } else {
        Err(Error::Generic("Could not convert usize to i32".to_string()))
    }
}

} // verus!
