//! The chain executor's decisions: which step to launch next, and what the
//! outcome of a launched step does to the chain. Launching is the caller's
//! part; the chain is run by asking for the pending step, launching it, and
//! handing back how it ended, until no step is pending.
//!
//! Nothing here retries a step or limits the time it may take: a step that
//! never ends holds up its chain and every chain behind it.

use crate::actions::CommandAction;
use crate::command::{rendered, Step, StepView};
use crate::template::{PathParts, PathPartsView};
use vstd::prelude::*;

verus! {

/// How a launched step ended.
#[derive(Clone, Copy, Debug, PartialEq, Eq, Structural)]
pub enum StepOutcome {
    /// The process ran to its end; `code` is its exit code, `None` where it
    /// was ended by a signal.
    Exited { code: Option<i32> },
    /// The process could not be started.
    SpawnFailed,
}

impl StepOutcome {
    /// A step has succeeded when its process was started and left with exit
    /// code zero.
    pub open spec fn succeeded(self) -> bool {
        self == (StepOutcome::Exited { code: Some(0i32) })
    }

    /// Whether the step has succeeded.
    pub fn is_success(&self) -> (ok: bool)
        ensures
            ok == self.succeeded(),
    {
        match self {
            StepOutcome::Exited { code: Some(code) } => *code == 0,
            _ => false,
        }
    }
}

/// Where a chain stands.
#[derive(Clone, Copy, Debug, PartialEq, Eq, Structural)]
pub enum ChainState {
    /// The step at position `next` is the one to launch.
    Running { next: usize },
    /// Every step has succeeded.
    Succeeded,
    /// The step at position `step` has failed; none after it is launched.
    Failed { step: usize },
}

/// The state in which a chain of `len` steps starts. A chain without steps
/// has succeeded at once.
pub open spec fn chain_start(len: usize) -> ChainState {
    if len == 0 {
        ChainState::Succeeded
    } else {
        ChainState::Running { next: 0 }
    }
}

/// The state after the pending step of a chain of `len` steps has ended
/// with `outcome`. A success moves on to the next step, or ends the chain
/// after the last; anything else fails the chain at that step. A chain that
/// has ended, or a state that names no step of the chain, stays as it is.
pub open spec fn chain_step(len: usize, state: ChainState, outcome: StepOutcome) -> ChainState {
    match state {
        ChainState::Running { next } if next < len => {
            if !outcome.succeeded() {
                ChainState::Failed { step: next }
            } else if next + 1 < len {
                ChainState::Running { next: (next + 1) as usize }
            } else {
                ChainState::Succeeded
            }
        },
        _ => state,
    }
}

/// The state of a chain of `len` steps after its launched steps have ended
/// with `outcomes`, in that order.
pub open spec fn chain_run(len: usize, outcomes: Seq<StepOutcome>) -> ChainState
    decreases outcomes.len(),
{
    if outcomes.len() == 0 {
        chain_start(len)
    } else {
        chain_step(len, chain_run(len, outcomes.drop_last()), outcomes.last())
    }
}

/// The step that is launched in `state`, rendered for the changed path:
/// the one that a running chain points at, and none once the chain has
/// ended.
pub open spec fn pending_step(
    steps: Seq<StepView>,
    state: ChainState,
    parts: PathPartsView,
) -> Option<StepView> {
    match state {
        ChainState::Running { next } if next < steps.len() => Some(
            rendered(steps[next as int], parts),
        ),
        _ => None,
    }
}

impl CommandAction {
    /// The state in which the action's chain starts.
    pub fn begin(&self) -> (state: ChainState)
        ensures
            state == chain_start(self@.steps.len() as usize),
    {
        if self.step_count() == 0 {
            ChainState::Succeeded
        } else {
            ChainState::Running { next: 0 }
        }
    }

    /// The step to launch in `state`, with its arguments rendered for the
    /// changed path.
    pub fn pending(&self, state: &ChainState, parts: &PathParts) -> (launch: Option<Step>)
        ensures
            match launch {
                Some(step) => pending_step(self@.steps, *state, parts@) == Some(step@),
                None => pending_step(self@.steps, *state, parts@) is None,
            },
    {
        match state {
            ChainState::Running { next } => match self.step(*next) {
                Some(step) => Some(step.render(parts)),
                None => None,
            },
            _ => None,
        }
    }

    /// The state after the pending step has ended with `outcome`.
    pub fn advance(&self, state: ChainState, outcome: &StepOutcome) -> (after: ChainState)
        ensures
            after == chain_step(self@.steps.len() as usize, state, *outcome),
    {
        let len = self.step_count();
        match state {
            ChainState::Running { next } => {
                if next >= len {
                    state
                } else if !outcome.is_success() {
                    ChainState::Failed { step: next }
                } else if next + 1 < len {
                    ChainState::Running { next: next + 1 }
                } else {
                    ChainState::Succeeded
                }
            },
            _ => state,
        }
    }
}

/// While every launched step succeeds, the chain launches its steps one
/// after the other in their declared order.
pub proof fn lemma_chain_runs_in_order(len: usize, outcomes: Seq<StepOutcome>)
    requires
        outcomes.len() < len,
        forall|i: int| 0 <= i < outcomes.len() ==> (#[trigger] outcomes[i]).succeeded(),
    ensures
        chain_run(len, outcomes) == (ChainState::Running { next: outcomes.len() as usize }),
    decreases outcomes.len(),
{
    if outcomes.len() > 0 {
        lemma_chain_runs_in_order(len, outcomes.drop_last());
    }
}

/// A chain whose steps all succeed ends as succeeded after the last one.
pub proof fn lemma_chain_succeeds(len: usize, outcomes: Seq<StepOutcome>)
    requires
        outcomes.len() == len,
        forall|i: int| 0 <= i < outcomes.len() ==> (#[trigger] outcomes[i]).succeeded(),
    ensures
        chain_run(len, outcomes) == ChainState::Succeeded,
{
    if len > 0 {
        lemma_chain_runs_in_order(len, outcomes.drop_last());
    }
}

/// Chain abort. Where the step at position `failed` is the first that does
/// not succeed, the steps up to it are launched one after the other in
/// their declared order, the chain fails at that step, and no step is
/// launched after it, whatever is handed to the chain from then on.
pub proof fn lemma_chain_aborts_at_first_failure(
    steps: Seq<StepView>,
    parts: PathPartsView,
    outcomes: Seq<StepOutcome>,
    failed: int,
)
    requires
        steps.len() <= usize::MAX,
        0 <= failed < steps.len(),
        failed < outcomes.len(),
        forall|i: int| 0 <= i < failed ==> (#[trigger] outcomes[i]).succeeded(),
        !outcomes[failed].succeeded(),
    ensures
        forall|k: int|
            0 <= k <= failed ==> pending_step(
                steps,
                chain_run(steps.len() as usize, #[trigger] outcomes.take(k)),
                parts,
            ) == Some(rendered(steps[k], parts)),
        forall|k: int|
            failed < k <= outcomes.len() ==> chain_run(
                steps.len() as usize,
                #[trigger] outcomes.take(k),
            ) == (ChainState::Failed { step: failed as usize }),
        forall|k: int|
            failed < k <= outcomes.len() ==> pending_step(
                steps,
                chain_run(steps.len() as usize, #[trigger] outcomes.take(k)),
                parts,
            ) is None,
{
    let len = steps.len() as usize;
    assert forall|k: int| 0 <= k <= failed implies pending_step(
        steps,
        chain_run(len, #[trigger] outcomes.take(k)),
        parts,
    ) == Some(rendered(steps[k], parts)) by {
        lemma_chain_runs_in_order(len, outcomes.take(k));
    }
    assert forall|k: int| failed < k <= outcomes.len() implies chain_run(
        len,
        #[trigger] outcomes.take(k),
    ) == (ChainState::Failed { step: failed as usize }) by {
        lemma_failed_chain_stays_failed(len, outcomes, failed, k);
    }
}

/// After the first failure the chain is failed at that step, and stays so.
proof fn lemma_failed_chain_stays_failed(
    len: usize,
    outcomes: Seq<StepOutcome>,
    failed: int,
    k: int,
)
    requires
        0 <= failed < len,
        failed < k <= outcomes.len(),
        forall|i: int| 0 <= i < failed ==> (#[trigger] outcomes[i]).succeeded(),
        !outcomes[failed].succeeded(),
    ensures
        chain_run(len, outcomes.take(k)) == (ChainState::Failed { step: failed as usize }),
    decreases k,
{
    let upto = outcomes.take(k);
    assert(upto.drop_last() == outcomes.take(k - 1));
    assert(upto.last() == outcomes[k - 1]);
    if k == failed + 1 {
        lemma_chain_runs_in_order(len, outcomes.take(failed));
    } else {
        lemma_failed_chain_stays_failed(len, outcomes, failed, k - 1);
    }
}

} // verus!
