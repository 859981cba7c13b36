//! Another try for an image whose translation failed.

use crate::translate::{ErrorView, TranslateError};
use crate::worker::RETRIES;
use vstd::prelude::*;

verus! {

/// The tries for one image.
#[derive(Clone, Copy, PartialEq, Eq, Structural)]
pub struct Retry {
    /// How many tries have failed so far.
    pub failed: u32,
    /// How many tries may follow the first.
    pub retries: u32,
    /// What is waited for.
    pub stage: RetryStage,
}

/// What is waited for.
#[derive(Clone, Copy, PartialEq, Eq, Structural)]
pub enum RetryStage {
    /// The outcome of a try.
    Trying,
    /// The end of the pause before the next try.
    Pausing,
    /// Nothing.
    Finished,
}

/// What came of the last action.
pub enum RetryEvent {
    /// A try came to its end.
    Tried(Result<Vec<u8>, TranslateError>),
    /// The pause is over.
    Slept,
}

/// What is to be done next.
pub enum RetryAction {
    /// Keep waiting: what came was not what is waited for.
    Wait,
    /// Try to translate the image.
    Try,
    /// Pause for so many milliseconds.
    Sleep(u64),
    /// The translated image, or why there is none.
    Finish(Result<Vec<u8>, TranslateError>),
}

/// The outcome of a try, as a value.
pub open spec fn outcome_view(r: Result<Vec<u8>, TranslateError>) -> Result<Seq<u8>, ErrorView> {
    match r {
        Ok(bytes) => Ok(bytes@),
        Err(e) => Err(e@),
    }
}

/// The mathematical value of a [`RetryEvent`].
pub enum RetryEventView {
    Tried(Result<Seq<u8>, ErrorView>),
    Slept,
}

impl View for RetryEvent {
    type V = RetryEventView;

    open spec fn view(&self) -> RetryEventView {
        match *self {
            RetryEvent::Tried(r) => RetryEventView::Tried(outcome_view(r)),
            RetryEvent::Slept => RetryEventView::Slept,
        }
    }
}

/// The mathematical value of a [`RetryAction`].
pub enum RetryActionView {
    Wait,
    Try,
    Sleep(u64),
    Finish(Result<Seq<u8>, ErrorView>),
}

impl View for RetryAction {
    type V = RetryActionView;

    open spec fn view(&self) -> RetryActionView {
        match *self {
            RetryAction::Wait => RetryActionView::Wait,
            RetryAction::Try => RetryActionView::Try,
            RetryAction::Sleep(ms) => RetryActionView::Sleep(ms),
            RetryAction::Finish(r) => RetryActionView::Finish(outcome_view(r)),
        }
    }
}

/// The state before the first try.
pub open spec fn first_try(retries: u32) -> Retry {
    Retry { failed: 0, retries, stage: RetryStage::Trying }
}

/// The state before the first try, which is the next action.
pub fn start_retry(retries: u32) -> (state: Retry)
    ensures
        state == first_try(retries),
{
    Retry { failed: 0, retries, stage: RetryStage::Trying }
}

/// What follows `event`: a success or the last allowed failure ends the tries, and any other
/// failure is followed by a pause and another try. An event that does not fit changes nothing.
pub open spec fn retry_next(state: Retry, event: RetryEventView) -> (Retry, RetryActionView) {
    match (state.stage, event) {
        (RetryStage::Trying, RetryEventView::Tried(r)) => if r is Ok || state.failed
            >= state.retries {
            (Retry { stage: RetryStage::Finished, ..state }, RetryActionView::Finish(r))
        } else {
            (
                Retry {
                    stage: RetryStage::Pausing,
                    failed: (state.failed + 1) as u32,
                    ..state
                },
                RetryActionView::Sleep(700),
            )
        },
        (RetryStage::Pausing, RetryEventView::Slept) => (
            Retry { stage: RetryStage::Trying, ..state },
            RetryActionView::Try,
        ),
        _ => (state, RetryActionView::Wait),
    }
}

/// Takes the tries for one image a step further.
pub fn translate_with_retry(state: &mut Retry, event: RetryEvent) -> (action: RetryAction)
    ensures
        (*final(state), action@) == retry_next(*old(state), event@),
{
    match (state.stage, event) {
        (RetryStage::Trying, RetryEvent::Tried(r)) => {
            if r.is_ok() || state.failed >= state.retries {
                state.stage = RetryStage::Finished;
                RetryAction::Finish(r)
            } else {
                state.stage = RetryStage::Pausing;
                state.failed = state.failed + 1;
                RetryAction::Sleep(700)
            }
        },
        (RetryStage::Pausing, RetryEvent::Slept) => {
            state.stage = RetryStage::Trying;
            RetryAction::Try
        },
        _ => RetryAction::Wait,
    }
}

/// What a state that waits for the outcome of a try comes to when the tries end as `outcomes`
/// say, each pause being followed by the next try. `None` where more tries are needed.
pub open spec fn run_tries(state: Retry, outcomes: Seq<Result<Seq<u8>, ErrorView>>) -> Option<
    Result<Seq<u8>, ErrorView>,
>
    decreases outcomes.len(),
{
    if outcomes.len() == 0 {
        None
    } else {
        let (after, action) = retry_next(state, RetryEventView::Tried(outcomes[0]));
        match action {
            RetryActionView::Finish(r) => Some(r),
            RetryActionView::Sleep(_) => run_tries(
                retry_next(after, RetryEventView::Slept).0,
                outcomes.skip(1),
            ),
            _ => None,
        }
    }
}

/// The first success within the allowed tries is the result, and the tries behind it do not
/// matter.
pub proof fn law_first_success_wins(
    retries: u32,
    outcomes: Seq<Result<Seq<u8>, ErrorView>>,
    k: int,
)
    requires
        0 <= k < outcomes.len(),
        k <= retries,
        outcomes[k] is Ok,
        forall|i: int| 0 <= i < k ==> (#[trigger] outcomes[i]) is Err,
    ensures
        run_tries(first_try(retries), outcomes) == Some(outcomes[k]),
{
    lemma_run_tries(first_try(retries), outcomes, k);
}

/// Where every allowed try fails, the error of the last one is the result.
pub proof fn law_last_error_is_reported(
    retries: u32,
    outcomes: Seq<Result<Seq<u8>, ErrorView>>,
)
    requires
        outcomes.len() > retries,
        forall|i: int| 0 <= i <= retries ==> (#[trigger] outcomes[i]) is Err,
    ensures
        run_tries(first_try(retries), outcomes) == Some(outcomes[retries as int]),
{
    lemma_run_tries(first_try(retries), outcomes, retries as int);
}

/// Failures alone end nothing before the allowed tries are used up.
pub proof fn law_failure_is_tried_again(
    retries: u32,
    outcomes: Seq<Result<Seq<u8>, ErrorView>>,
)
    requires
        outcomes.len() <= retries,
        forall|i: int| 0 <= i < outcomes.len() ==> (#[trigger] outcomes[i]) is Err,
    ensures
        run_tries(first_try(retries), outcomes) is None,
{
    lemma_run_tries_open(first_try(retries), outcomes);
}

proof fn lemma_run_tries(state: Retry, outcomes: Seq<Result<Seq<u8>, ErrorView>>, k: int)
    requires
        state.stage == RetryStage::Trying,
        state.failed <= state.retries,
        0 <= k < outcomes.len(),
        k <= state.retries - state.failed,
        outcomes[k] is Ok || k == state.retries - state.failed,
        forall|i: int| 0 <= i < k ==> (#[trigger] outcomes[i]) is Err,
    ensures
        run_tries(state, outcomes) == Some(outcomes[k]),
    decreases k,
{
    if k > 0 {
        assert(outcomes[0] is Err);
        let paused = retry_next(state, RetryEventView::Tried(outcomes[0])).0;
        let after = retry_next(paused, RetryEventView::Slept).0;
        lemma_run_tries(after, outcomes.skip(1), k - 1);
    }
}

proof fn lemma_run_tries_open(state: Retry, outcomes: Seq<Result<Seq<u8>, ErrorView>>)
    requires
        state.stage == RetryStage::Trying,
        outcomes.len() <= state.retries - state.failed,
        forall|i: int| 0 <= i < outcomes.len() ==> (#[trigger] outcomes[i]) is Err,
    ensures
        run_tries(state, outcomes) is None,
    decreases outcomes.len(),
{
    if outcomes.len() > 0 {
        assert(outcomes[0] is Err);
        let paused = retry_next(state, RetryEventView::Tried(outcomes[0])).0;
        let after = retry_next(paused, RetryEventView::Slept).0;
        lemma_run_tries_open(after, outcomes.skip(1));
    }
}

/// An image is tried twice: what the first try gives is the result where it succeeds, and what
/// the second gives where it does not.
pub proof fn law_image_is_tried_twice(
    first: Result<Seq<u8>, ErrorView>,
    second: Result<Seq<u8>, ErrorView>,
)
    ensures
        run_tries(first_try(RETRIES), seq![first, second]) == Some(
            if first is Ok {
                first
            } else {
                second
            },
        ),
        run_tries(first_try(RETRIES), seq![first]) == (if first is Ok {
            Some(first)
        } else {
            None
        }),
{
    reveal_with_fuel(run_tries, 3);
    assert(seq![first, second].skip(1) =~= seq![second]);
    assert(seq![first].skip(1) =~= Seq::empty());
}

/// Between two tries there is a pause of 700 milliseconds, and then the image is tried again.
pub proof fn law_tries_are_set_apart(state: Retry, error: ErrorView)
    requires
        state.stage == RetryStage::Trying,
        state.failed < state.retries,
    ensures
        ({
            let (paused, action) = retry_next(state, RetryEventView::Tried(Err(error)));
            &&& action == RetryActionView::Sleep(700)
            &&& retry_next(paused, RetryEventView::Slept).1 == RetryActionView::Try
            &&& retry_next(paused, RetryEventView::Slept).0 == (Retry {
                failed: (state.failed + 1) as u32,
                ..state
            })
        }),
{
}

} // verus!
