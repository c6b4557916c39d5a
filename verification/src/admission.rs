//! Admitting entries into the session pool: retries while the session settles, and the
//! responses of the call protocol.
use vstd::prelude::*;

verus! {

/// How long to wait before the next attempt when the session is not ready.
pub const SESSION_SETTLE_MS: u64 = 500;

/// How often an entry is tried in all.
pub const MAX_EXEC_ATTEMPTS: u32 = 4;

/// What follows a failed attempt.
#[derive(Clone, Copy, PartialEq, Eq, Structural, Debug)]
pub enum AfterFailure {
    /// Try again after this many milliseconds.
    RetryAfter(u64),
    /// Give up and report the error.
    GiveUp,
}

/// What follows the failure of an attempt, which are counted from one: another attempt
/// where the session was only not ready and attempts are left.
pub fn after_failure(attempt: u32, settles: bool) -> (r: AfterFailure)
    ensures
        r == after_failure_of(attempt, settles),
{
    if settles && attempt < MAX_EXEC_ATTEMPTS {
        AfterFailure::RetryAfter(SESSION_SETTLE_MS)
    } else {
        AfterFailure::GiveUp
    }
}

/// What follows the failure of an attempt.
pub open spec fn after_failure_of(attempt: u32, settles: bool) -> AfterFailure {
    if settles && attempt < MAX_EXEC_ATTEMPTS {
        AfterFailure::RetryAfter(SESSION_SETTLE_MS)
    } else {
        AfterFailure::GiveUp
    }
}

/// How an attempt ends.
pub enum AttemptModel {
    Admitted,
    Failed { settles: bool },
}

/// The number of the last attempt, where the attempts from `attempt` on end as given.
pub open spec fn last_attempt(outcomes: spec_fn(u32) -> AttemptModel, attempt: u32) -> u32
    decreases MAX_EXEC_ATTEMPTS - attempt,
{
    match outcomes(attempt) {
        AttemptModel::Admitted => attempt,
        AttemptModel::Failed { settles } => if after_failure_of(attempt, settles)
            == AfterFailure::GiveUp {
            attempt
        } else {
            last_attempt(outcomes, (attempt + 1) as u32)
        },
    }
}

/// An entry is tried at most four times. It is tried again exactly while the session is
/// not ready: every attempt but the last failed for that reason, and the last did not,
/// or was the fourth.
pub proof fn theorem_attempts_end(outcomes: spec_fn(u32) -> AttemptModel, attempt: u32)
    requires
        1 <= attempt <= MAX_EXEC_ATTEMPTS,
    ensures
        attempt <= last_attempt(outcomes, attempt) <= MAX_EXEC_ATTEMPTS,
        forall|i: u32|
            attempt <= i < last_attempt(outcomes, attempt) ==> #[trigger] outcomes(i) == (
            AttemptModel::Failed { settles: true }),
        last_attempt(outcomes, attempt) == MAX_EXEC_ATTEMPTS || outcomes(
            last_attempt(outcomes, attempt),
        ) != (AttemptModel::Failed { settles: true }),
    decreases MAX_EXEC_ATTEMPTS - attempt,
{
    match outcomes(attempt) {
        AttemptModel::Admitted => {},
        AttemptModel::Failed { settles } => {
            if settles && attempt < MAX_EXEC_ATTEMPTS {
                theorem_attempts_end(outcomes, (attempt + 1) as u32);
            }
        },
    }
}

/// Why the session pool did not execute a call.
pub enum ExecCallInPoolError {
    SessionInactiveError,
    SessionSuspendedError,
    SessionBreakError,
    PoolOverloadedError,
    BatchInfoNotFoundError,
    CallBLSVerifyError(String),
    CallValidateRootAccountError(String),
    CallValidateTargetError { targeted_at_batch_height: u64, execution_batch_height: u64 },
    CallExecutionError(String),
    EntryIdDerivationError,
}

impl ExecCallInPoolError {
    /// Whether the session was only not ready, so that the call can be tried again.
    pub fn settles(&self) -> (r: bool)
        ensures
            r == (self is SessionInactiveError || self is SessionBreakError),
    {
        match self {
            ExecCallInPoolError::SessionInactiveError => true,
            ExecCallInPoolError::SessionBreakError => true,
            _ => false,
        }
    }
}

/// Why a call request is refused.
pub enum CallResponseError {
    DeserializeCallRequestError,
    ExecCallInPoolError(ExecCallInPoolError),
}

/// The answer to an executed call.
pub struct CallSuccessBody<E> {
    pub entry_id: [u8; 32],
    pub batch_height: u64,
    pub batch_timestamp: u64,
    pub entry: E,
}

/// A response of the call protocol.
pub enum CallResponseBody<E> {
    Executed(CallSuccessBody<E>),
    Refused(CallResponseError),
}

/// What the engine does after an attempt to execute a call.
pub enum CallStep<E> {
    /// Try again after this many milliseconds.
    RetryAfter(u64),
    Respond(CallResponseBody<E>),
}

/// The response to a request that could not be read.
pub fn unreadable_call<E>() -> (r: CallResponseBody<E>)
    ensures
        r == CallResponseBody::<E>::Refused(CallResponseError::DeserializeCallRequestError),
{
    CallResponseBody::Refused(CallResponseError::DeserializeCallRequestError)
}

/// What the engine does after an attempt to execute a call, which gave the id of the
/// entry, the entry, and height and timestamp of the batch, or an error.
pub fn after_call_attempt<E>(
    attempt: u32,
    result: Result<([u8; 32], E, u64, u64), ExecCallInPoolError>,
) -> (r: CallStep<E>)
    ensures
        match result {
            Ok(t) => r == CallStep::Respond(
                CallResponseBody::Executed(
                    CallSuccessBody {
                        entry_id: t.0,
                        batch_height: t.2,
                        batch_timestamp: t.3,
                        entry: t.1,
                    },
                ),
            ),
            Err(e) => match after_failure_of(
                attempt,
                e is SessionInactiveError || e is SessionBreakError,
            ) {
                AfterFailure::RetryAfter(ms) => r == CallStep::<E>::RetryAfter(ms),
                AfterFailure::GiveUp => r == CallStep::<E>::Respond(
                    CallResponseBody::Refused(CallResponseError::ExecCallInPoolError(e)),
                ),
            },
        },
{
    match result {
        Ok((entry_id, entry, batch_height, batch_timestamp)) => CallStep::Respond(
            CallResponseBody::Executed(
                CallSuccessBody { entry_id, batch_height, batch_timestamp, entry },
            ),
        ),
        Err(e) => match after_failure(attempt, e.settles()) {
            AfterFailure::RetryAfter(ms) => CallStep::RetryAfter(ms),
            AfterFailure::GiveUp => CallStep::Respond(
                CallResponseBody::Refused(CallResponseError::ExecCallInPoolError(e)),
            ),
        },
    }
}

/// A failed attempt is repeated, after half a second, if and only if the session was only
/// not ready and the attempt was one of the first three.
pub proof fn theorem_unsettled_attempts_are_repeated(
    attempt: u32,
    settles: bool,
    r: AfterFailure,
)
    requires
        call_ensures(after_failure, (attempt, settles), r),
    ensures
        r is RetryAfter <==> settles && attempt <= 3,
        r is RetryAfter ==> r->RetryAfter_0 == 500,
        r is GiveUp <==> !settles || attempt > 3,
{
}

/// What becomes of an attempt to execute a call: an executed call is answered with its id,
/// its entry and its batch; one that fails for a session that is not ready is repeated
/// while attempts are left; any other failure is answered as it is.
pub proof fn theorem_call_attempts_are_answered<E>(
    attempt: u32,
    result: Result<([u8; 32], E, u64, u64), ExecCallInPoolError>,
    r: CallStep<E>,
)
    requires
        call_ensures(after_call_attempt::<E>, (attempt, result), r),
    ensures
        result is Ok ==> {
            &&& r is Respond
            &&& r->Respond_0 is Executed
            &&& r->Respond_0->Executed_0.entry_id == result->Ok_0.0
            &&& r->Respond_0->Executed_0.entry == result->Ok_0.1
            &&& r->Respond_0->Executed_0.batch_height == result->Ok_0.2
            &&& r->Respond_0->Executed_0.batch_timestamp == result->Ok_0.3
        },
        r is RetryAfter <==> attempt <= 3 && result is Err && (
        result->Err_0 is SessionInactiveError || result->Err_0 is SessionBreakError),
        r is RetryAfter ==> r->RetryAfter_0 == 500,
        result is Err && r is Respond ==> r->Respond_0 == CallResponseBody::<E>::Refused(
            CallResponseError::ExecCallInPoolError(result->Err_0),
        ),
{
}

/// A request that cannot be read is refused for that.
pub proof fn theorem_unreadable_calls_are_refused<E>(r: CallResponseBody<E>)
    requires
        call_ensures(unreadable_call::<E>, (), r),
    ensures
        r is Refused,
        r->Refused_0 is DeserializeCallRequestError,
{
}

} // verus!
