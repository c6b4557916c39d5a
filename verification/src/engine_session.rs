//! Building batches: the order of events in a session.
//!
//! A session admits entries for a while, is frozen, waits for the cosignatures of its
//! deposits, and becomes a batch that is broadcast and executed. Then the next one
//! begins.
use vstd::prelude::*;

verus! {

/// How long a session admits entries.
pub const WAITING_WINDOW_PERIOD_SECONDS: u64 = 60;

/// How far a batch is dated ahead.
pub const EXECUTION_TIMESTAMP_OFFSET_SECONDS: u64 = 60;

/// How long the engine waits for cosignatures after the freeze.
pub const LIFTV2_COSIGN_TIMEOUT_SECONDS: u64 = 30;

/// How often it looks for them meanwhile.
pub const LIFTV2_COSIGN_POLL_MS: u64 = 250;

/// How long to wait before asking for the feerate again.
pub const FEERATE_RETRY_SECONDS: u64 = 5;

/// The batch that a session builds.
#[derive(Clone, Copy, PartialEq, Eq, Structural, Debug)]
pub struct SessionTerms {
    pub batch_height: u64,
    pub timestamp: u64,
    pub feerate: u64,
}

/// Where a session is: each phase stands for one thing that has to be done next.
#[derive(Clone, Copy, PartialEq, Eq, Structural, Debug)]
pub enum Phase {
    /// Ask for the tip and the time.
    AskingTip,
    /// Ask for the feerate.
    AskingFeerate { batch_height: u64, timestamp: u64 },
    /// Wait before asking for the feerate again.
    WaitingForFeerate,
    /// Begin the session.
    Beginning(SessionTerms),
    /// Admit entries for the waiting window.
    Admitting(SessionTerms),
    /// Freeze the session.
    Freezing(SessionTerms),
    /// Ask whether deposits wait for cosignatures.
    AskingPending(SessionTerms),
    /// Make the engine's partial signatures.
    Preparing(SessionTerms),
    /// Ask whether all deposits are cosigned.
    Polling { terms: SessionTerms, deadline_ms: u64 },
    /// Wait before asking again.
    PollWaiting { terms: SessionTerms, deadline_ms: u64 },
    /// Ask one last time whether all deposits are cosigned.
    CheckingCosigns(SessionTerms),
    /// Count the entries.
    Counting(SessionTerms),
    /// Build and sign the batch.
    Building(SessionTerms),
    /// End the session without a batch.
    Aborting(SessionTerms),
    /// End the session with a batch.
    Ending(SessionTerms),
    /// Broadcast the batch.
    Broadcasting(SessionTerms),
    /// Execute the batch.
    Executing(SessionTerms),
}

/// What came of doing it.
#[derive(Clone, Copy, PartialEq, Eq, Structural, Debug)]
pub enum SessionEvent {
    Tip { batch_height: u64, now_seconds: u64 },
    Feerate(u64),
    FeerateUnavailable,
    /// What had to be done was done.
    Done,
    /// It could not be done.
    Failed,
    Pending(bool),
    Prepared { now_ms: u64 },
    Cosigned { all: bool, now_ms: u64 },
    Entries(u64),
}

/// The phase after an event; `None` where the event does not belong to the phase.
pub open spec fn next_phase(phase: Phase, event: SessionEvent) -> Option<Phase> {
    match (phase, event) {
        (Phase::AskingTip, SessionEvent::Tip { batch_height, now_seconds }) => Some(
            Phase::AskingFeerate {
                batch_height: (batch_height + 1) as u64,
                timestamp: (now_seconds + EXECUTION_TIMESTAMP_OFFSET_SECONDS) as u64,
            },
        ),
        (Phase::AskingFeerate { batch_height, timestamp }, SessionEvent::Feerate(feerate)) => Some(
            Phase::Beginning(SessionTerms { batch_height, timestamp, feerate }),
        ),
        (Phase::AskingFeerate { .. }, SessionEvent::FeerateUnavailable) => Some(
            Phase::WaitingForFeerate,
        ),
        (Phase::WaitingForFeerate, SessionEvent::Done) => Some(Phase::AskingTip),
        (Phase::Beginning(t), SessionEvent::Done) => Some(Phase::Admitting(t)),
        (Phase::Admitting(t), SessionEvent::Done) => Some(Phase::Freezing(t)),
        (Phase::Freezing(t), SessionEvent::Done) => Some(Phase::AskingPending(t)),
        (Phase::AskingPending(t), SessionEvent::Pending(true)) => Some(Phase::Preparing(t)),
        (Phase::AskingPending(t), SessionEvent::Pending(false)) => Some(Phase::Counting(t)),
        (Phase::Preparing(t), SessionEvent::Prepared { now_ms }) => Some(
            Phase::Polling {
                terms: t,
                deadline_ms: (now_ms + 1000 * LIFTV2_COSIGN_TIMEOUT_SECONDS) as u64,
            },
        ),
        (Phase::Preparing(t), SessionEvent::Failed) => Some(Phase::Aborting(t)),
        (Phase::Polling { terms, deadline_ms }, SessionEvent::Cosigned { all, now_ms }) => Some(
            if all || now_ms >= deadline_ms {
                Phase::CheckingCosigns(terms)
            } else {
                Phase::PollWaiting { terms, deadline_ms }
            },
        ),
        (Phase::PollWaiting { terms, deadline_ms }, SessionEvent::Done) => Some(
            Phase::Polling { terms, deadline_ms },
        ),
        (Phase::CheckingCosigns(t), SessionEvent::Cosigned { all, .. }) => Some(
            if all {
                Phase::Counting(t)
            } else {
                Phase::Aborting(t)
            },
        ),
        (Phase::Counting(t), SessionEvent::Entries(count)) => Some(
            if count == 0 {
                Phase::Aborting(t)
            } else {
                Phase::Building(t)
            },
        ),
        (Phase::Building(t), SessionEvent::Done) => Some(Phase::Ending(t)),
        (Phase::Building(t), SessionEvent::Failed) => Some(Phase::Aborting(t)),
        (Phase::Aborting(_), SessionEvent::Done) => Some(Phase::AskingTip),
        (Phase::Ending(t), SessionEvent::Done) => Some(Phase::Broadcasting(t)),
        (Phase::Broadcasting(t), SessionEvent::Done) => Some(Phase::Executing(t)),
        (Phase::Broadcasting(_), SessionEvent::Failed) => Some(Phase::AskingTip),
        (Phase::Executing(_), SessionEvent::Done) => Some(Phase::AskingTip),
        (Phase::Executing(_), SessionEvent::Failed) => Some(Phase::AskingTip),
        _ => None,
    }
}

/// Whether the numbers of an event leave room for what is added to them.
pub open spec fn event_in_range(event: SessionEvent) -> bool {
    match event {
        SessionEvent::Tip { batch_height, now_seconds } => batch_height < u64::MAX && now_seconds
            + EXECUTION_TIMESTAMP_OFFSET_SECONDS <= u64::MAX,
        SessionEvent::Prepared { now_ms } => now_ms + 1000 * LIFTV2_COSIGN_TIMEOUT_SECONDS
            <= u64::MAX,
        _ => true,
    }
}

impl Phase {
    /// The phase after an event; `None` where the event does not belong to the phase.
    pub fn after(self, event: SessionEvent) -> (r: Option<Phase>)
        requires
            event_in_range(event),
        ensures
            r == next_phase(self, event),
    {
        match (self, event) {
            (Phase::AskingTip, SessionEvent::Tip { batch_height, now_seconds }) => Some(
                Phase::AskingFeerate {
                    batch_height: batch_height + 1,
                    timestamp: now_seconds + EXECUTION_TIMESTAMP_OFFSET_SECONDS,
                },
            ),
            (
                Phase::AskingFeerate { batch_height, timestamp },
                SessionEvent::Feerate(feerate),
            ) => Some(Phase::Beginning(SessionTerms { batch_height, timestamp, feerate })),
            (Phase::AskingFeerate { .. }, SessionEvent::FeerateUnavailable) => Some(
                Phase::WaitingForFeerate,
            ),
            (Phase::WaitingForFeerate, SessionEvent::Done) => Some(Phase::AskingTip),
            (Phase::Beginning(t), SessionEvent::Done) => Some(Phase::Admitting(t)),
            (Phase::Admitting(t), SessionEvent::Done) => Some(Phase::Freezing(t)),
            (Phase::Freezing(t), SessionEvent::Done) => Some(Phase::AskingPending(t)),
            (Phase::AskingPending(t), SessionEvent::Pending(pending)) => {
                if pending {
                    Some(Phase::Preparing(t))
                } else {
                    Some(Phase::Counting(t))
                }
            },
            (Phase::Preparing(t), SessionEvent::Prepared { now_ms }) => Some(
                Phase::Polling {
                    terms: t,
                    deadline_ms: now_ms + 1000 * LIFTV2_COSIGN_TIMEOUT_SECONDS,
                },
            ),
            (Phase::Preparing(t), SessionEvent::Failed) => Some(Phase::Aborting(t)),
            (Phase::Polling { terms, deadline_ms }, SessionEvent::Cosigned { all, now_ms }) => {
                if all || now_ms >= deadline_ms {
                    Some(Phase::CheckingCosigns(terms))
                } else {
                    Some(Phase::PollWaiting { terms, deadline_ms })
                }
            },
            (Phase::PollWaiting { terms, deadline_ms }, SessionEvent::Done) => Some(
                Phase::Polling { terms, deadline_ms },
            ),
            (Phase::CheckingCosigns(t), SessionEvent::Cosigned { all, .. }) => {
                if all {
                    Some(Phase::Counting(t))
                } else {
                    Some(Phase::Aborting(t))
                }
            },
            (Phase::Counting(t), SessionEvent::Entries(count)) => {
                if count == 0 {
                    Some(Phase::Aborting(t))
                } else {
                    Some(Phase::Building(t))
                }
            },
            (Phase::Building(t), SessionEvent::Done) => Some(Phase::Ending(t)),
            (Phase::Building(t), SessionEvent::Failed) => Some(Phase::Aborting(t)),
            (Phase::Aborting(_), SessionEvent::Done) => Some(Phase::AskingTip),
            (Phase::Ending(t), SessionEvent::Done) => Some(Phase::Broadcasting(t)),
            (Phase::Broadcasting(t), SessionEvent::Done) => Some(Phase::Executing(t)),
            (Phase::Broadcasting(_), SessionEvent::Failed) => Some(Phase::AskingTip),
            (Phase::Executing(_), SessionEvent::Done) => Some(Phase::AskingTip),
            (Phase::Executing(_), SessionEvent::Failed) => Some(Phase::AskingTip),
            _ => None,
        }
    }

    /// How many milliseconds to wait in a phase.
    pub fn wait_ms(self) -> (r: u64)
        ensures
            r == match self {
                Phase::WaitingForFeerate => (1000 * FEERATE_RETRY_SECONDS) as u64,
                Phase::Admitting(_) => (1000 * WAITING_WINDOW_PERIOD_SECONDS) as u64,
                Phase::PollWaiting { .. } => LIFTV2_COSIGN_POLL_MS,
                _ => 0,
            },
    {
        match self {
            Phase::WaitingForFeerate => 1000 * FEERATE_RETRY_SECONDS,
            Phase::Admitting(_) => 1000 * WAITING_WINDOW_PERIOD_SECONDS,
            Phase::PollWaiting { .. } => LIFTV2_COSIGN_POLL_MS,
            _ => 0,
        }
    }

    /// Whether a session is open: it was begun and not ended.
    pub open spec fn session_open(self) -> bool {
        match self {
            Phase::Admitting(_) => true,
            Phase::Freezing(_) => true,
            Phase::AskingPending(_) => true,
            Phase::Preparing(_) => true,
            Phase::Polling { .. } => true,
            Phase::PollWaiting { .. } => true,
            Phase::CheckingCosigns(_) => true,
            Phase::Counting(_) => true,
            Phase::Building(_) => true,
            Phase::Aborting(_) => true,
            Phase::Ending(_) => true,
            _ => false,
        }
    }

    /// The batch that a phase works on, where there is one.
    pub open spec fn terms(self) -> Option<SessionTerms> {
        match self {
            Phase::Beginning(t) => Some(t),
            Phase::Admitting(t) => Some(t),
            Phase::Freezing(t) => Some(t),
            Phase::AskingPending(t) => Some(t),
            Phase::Preparing(t) => Some(t),
            Phase::Polling { terms, .. } => Some(terms),
            Phase::PollWaiting { terms, .. } => Some(terms),
            Phase::CheckingCosigns(t) => Some(t),
            Phase::Counting(t) => Some(t),
            Phase::Building(t) => Some(t),
            Phase::Aborting(t) => Some(t),
            Phase::Ending(t) => Some(t),
            Phase::Broadcasting(t) => Some(t),
            Phase::Executing(t) => Some(t),
            _ => None,
        }
    }
}

/// Phases and the events between them.
pub open spec fn is_course(phases: Seq<Phase>, events: Seq<SessionEvent>) -> bool {
    &&& phases.len() == events.len() + 1
    &&& phases[0] == Phase::AskingTip
    &&& forall|i: int|
        0 <= i < events.len() ==> next_phase(#[trigger] phases[i], events[i]) == Some(phases[i + 1])
}

/// Sessions do not overlap: a session opens only by beginning one, while none is open, and
/// an open one closes only by ending it.
pub proof fn theorem_sessions_do_not_overlap(phase: Phase, event: SessionEvent)
    requires
        next_phase(phase, event) is Some,
    ensures
        !phase.session_open() && (next_phase(phase, event)->0).session_open() ==> phase is Beginning,
        phase.session_open() && !(next_phase(phase, event)->0).session_open() ==> phase is Aborting
            || phase is Ending,
        phase is Beginning ==> !phase.session_open(),
{
}

/// A session works on one batch: its height, timestamp and feerate do not change.
pub proof fn theorem_terms_do_not_change(phase: Phase, event: SessionEvent)
    requires
        next_phase(phase, event) is Some,
        phase.terms() is Some,
        (next_phase(phase, event)->0).terms() is Some,
    ensures
        (next_phase(phase, event)->0).terms() == phase.terms(),
{
}

/// A batch is broadcast only after its session was ended, the batch was built, it has
/// entries, and no deposit waits for a cosignature: none waited at all, or all were found
/// to be cosigned.
pub proof fn theorem_broadcast_batches_are_complete(
    phases: Seq<Phase>,
    events: Seq<SessionEvent>,
    k: int,
)
    requires
        is_course(phases, events),
        0 <= k < phases.len(),
        phases[k] is Broadcasting,
    ensures
        k >= 4,
        phases[k - 1] is Ending,
        phases[k - 2] is Building && events[k - 2] == SessionEvent::Done,
        phases[k - 3] is Counting && match events[k - 3] {
            SessionEvent::Entries(count) => count > 0,
            _ => false,
        },
        (phases[k - 4] is AskingPending && events[k - 4] == SessionEvent::Pending(false)) || (
        phases[k - 4] is CheckingCosigns && match events[k - 4] {
            SessionEvent::Cosigned { all, .. } => all,
            _ => false,
        }),
{
    assert(next_phase(phases[k - 1], events[k - 1]) == Some(phases[k]));
    assert(next_phase(phases[k - 2], events[k - 2]) == Some(phases[k - 1]));
    assert(next_phase(phases[k - 3], events[k - 3]) == Some(phases[k - 2]));
    assert(next_phase(phases[k - 4], events[k - 4]) == Some(phases[k - 3]));
}

/// Once the deadline has passed, the next poll ends the wait for cosignatures.
pub proof fn theorem_cosign_wait_ends(
    terms: SessionTerms,
    deadline_ms: u64,
    all: bool,
    now_ms: u64,
)
    requires
        now_ms >= deadline_ms,
    ensures
        next_phase(
            Phase::Polling { terms, deadline_ms },
            SessionEvent::Cosigned { all, now_ms },
        ) == Some(Phase::CheckingCosigns(terms)),
{
}

/// A session that counts its entries builds a batch if and only if there are any, and
/// ends without one otherwise.
pub proof fn theorem_entries_are_built(terms: SessionTerms, count: u64, r: Option<Phase>)
    requires
        call_ensures(Phase::after, (Phase::Counting(terms), SessionEvent::Entries(count)), r),
    ensures
        r == Some(Phase::Building(terms)) <==> count > 0,
        r == Some(Phase::Aborting(terms)) <==> count == 0,
{
}

/// The course of a session whose deposits need no cosignature, or have them all: with at
/// least one entry and no failure it is built, ended, broadcast and executed, in this
/// order, and then the next session begins.
pub proof fn theorem_complete_sessions_become_batches(
    phases: Seq<Phase>,
    events: Seq<SessionEvent>,
    k: int,
    terms: SessionTerms,
)
    requires
        is_course(phases, events),
        0 <= k,
        k + 6 <= events.len(),
        (phases[k] == Phase::AskingPending(terms) && events[k] == SessionEvent::Pending(false)) || (
        phases[k] == Phase::CheckingCosigns(terms) && events[k] is Cosigned && events[k]->all),
        events[k + 1] is Entries && events[k + 1]->Entries_0 > 0,
        forall|i: int| k + 2 <= i < k + 6 ==> #[trigger] events[i] == SessionEvent::Done,
    ensures
        phases[k + 2] == Phase::Building(terms),
        phases[k + 3] == Phase::Ending(terms),
        phases[k + 4] == Phase::Broadcasting(terms),
        phases[k + 5] == Phase::Executing(terms),
        phases[k + 6] == Phase::AskingTip,
{
    assert(next_phase(phases[k], events[k]) == Some(phases[k + 1]));
    assert(next_phase(phases[k + 1], events[k + 1]) == Some(phases[k + 2]));
    assert(events[k + 2] == SessionEvent::Done);
    assert(next_phase(phases[k + 2], events[k + 2]) == Some(phases[k + 3]));
    assert(events[k + 3] == SessionEvent::Done);
    assert(next_phase(phases[k + 3], events[k + 3]) == Some(phases[k + 4]));
    assert(events[k + 4] == SessionEvent::Done);
    assert(next_phase(phases[k + 4], events[k + 4]) == Some(phases[k + 5]));
    assert(events[k + 5] == SessionEvent::Done);
    assert(next_phase(phases[k + 5], events[k + 5]) == Some(phases[k + 6]));
}

/// The wait for cosignatures lasts until all are there or thirty seconds have passed
/// since the engine prepared its own: a poll in between is followed by another with the
/// same deadline.
pub proof fn theorem_cosign_wait_lasts(
    terms: SessionTerms,
    prepared_ms: u64,
    all: bool,
    now_ms: u64,
    prepared: Option<Phase>,
    polled: Option<Phase>,
    waited: Option<Phase>,
)
    requires
        prepared_ms + 30_000 <= u64::MAX,
        call_ensures(
            Phase::after,
            (Phase::Preparing(terms), SessionEvent::Prepared { now_ms: prepared_ms }),
            prepared,
        ),
        prepared is Some,
        call_ensures(Phase::after, (prepared->0, SessionEvent::Cosigned { all, now_ms }), polled),
        polled is Some ==> call_ensures(Phase::after, (polled->0, SessionEvent::Done), waited),
    ensures
        polled is Some,
        all || now_ms - prepared_ms >= 30_000 ==> polled == Some(Phase::CheckingCosigns(terms)),
        !all && now_ms - prepared_ms < 30_000 ==> polled->0 is PollWaiting && waited == prepared,
{
}

/// The last look at the cosignatures decides: entries are counted if and only if every
/// deposit is cosigned, and the session ends without a batch otherwise.
pub proof fn theorem_uncosigned_sessions_are_aborted(
    terms: SessionTerms,
    all: bool,
    now_ms: u64,
    r: Option<Phase>,
)
    requires
        call_ensures(
            Phase::after,
            (Phase::CheckingCosigns(terms), SessionEvent::Cosigned { all, now_ms }),
            r,
        ),
    ensures
        all <==> r == Some(Phase::Counting(terms)),
        !all <==> r == Some(Phase::Aborting(terms)),
{
}

/// The batch of a session: one above the tip, dated a minute ahead, at the feerate that
/// was found.
pub proof fn theorem_session_builds_on_tip(
    batch_height: u64,
    now_seconds: u64,
    feerate: u64,
    asked: Option<Phase>,
    begun: Option<Phase>,
)
    requires
        batch_height < u64::MAX,
        now_seconds + 60 <= u64::MAX,
        call_ensures(
            Phase::after,
            (Phase::AskingTip, SessionEvent::Tip { batch_height, now_seconds }),
            asked,
        ),
        asked is Some,
        call_ensures(Phase::after, (asked->0, SessionEvent::Feerate(feerate)), begun),
    ensures
        begun == Some(
            Phase::Beginning(
                SessionTerms {
                    batch_height: (batch_height + 1) as u64,
                    timestamp: (now_seconds + 60) as u64,
                    feerate,
                },
            ),
        ),
{
}

/// A session that was begun admits entries for a minute, is frozen, and is asked for
/// deposits that wait; those are prepared for, and without any the entries are counted.
pub proof fn theorem_sessions_are_admitted_then_frozen(
    phases: Seq<Phase>,
    events: Seq<SessionEvent>,
    k: int,
    terms: SessionTerms,
    pending: bool,
    wait: u64,
)
    requires
        is_course(phases, events),
        0 <= k,
        k + 4 <= events.len(),
        phases[k] == Phase::Beginning(terms),
        events[k + 3] == SessionEvent::Pending(pending),
        call_ensures(Phase::wait_ms, (phases[k + 1],), wait),
    ensures
        phases[k + 1] == Phase::Admitting(terms),
        wait == 60_000,
        phases[k + 2] == Phase::Freezing(terms),
        phases[k + 3] == Phase::AskingPending(terms),
        pending ==> phases[k + 4] == Phase::Preparing(terms),
        !pending ==> phases[k + 4] == Phase::Counting(terms),
{
    assert(next_phase(phases[k], events[k]) == Some(phases[k + 1]));
    assert(next_phase(phases[k + 1], events[k + 1]) == Some(phases[k + 2]));
    assert(next_phase(phases[k + 2], events[k + 2]) == Some(phases[k + 3]));
    assert(next_phase(phases[k + 3], events[k + 3]) == Some(phases[k + 4]));
}

/// The engine waits in three phases only: a minute to admit entries, five seconds before
/// it asks for the feerate again, and a quarter of a second between two polls.
pub proof fn theorem_waits(phase: Phase, r: u64)
    requires
        call_ensures(Phase::wait_ms, (phase,), r),
    ensures
        r == 60_000 <==> phase is Admitting,
        r == 5_000 <==> phase is WaitingForFeerate,
        r == 250 <==> phase is PollWaiting,
        r == 0 <==> !(phase is Admitting || phase is WaitingForFeerate || phase is PollWaiting),
{
}

/// Failures: preparing or building ends the session without a batch, broadcasting or
/// executing gives the batch up, and a missing feerate is asked for again from the tip.
/// A session that ended without a batch is followed by the next one.
pub proof fn theorem_failures_lead_on(
    phase: Phase,
    terms: SessionTerms,
    batch_height: u64,
    timestamp: u64,
    r: Option<Phase>,
)
    requires
        call_ensures(Phase::after, (phase, SessionEvent::Failed), r),
    ensures
        r is Some <==> (phase is Preparing || phase is Building || phase is Broadcasting
            || phase is Executing),
        phase == Phase::Preparing(terms) ==> r == Some(Phase::Aborting(terms)),
        phase == Phase::Building(terms) ==> r == Some(Phase::Aborting(terms)),
        phase is Broadcasting || phase is Executing ==> r == Some(Phase::AskingTip),
        next_phase(
            Phase::AskingFeerate { batch_height, timestamp },
            SessionEvent::FeerateUnavailable,
        ) == Some(Phase::WaitingForFeerate),
        next_phase(Phase::WaitingForFeerate, SessionEvent::Done) == Some(Phase::AskingTip),
        next_phase(Phase::Aborting(terms), SessionEvent::Done) == Some(Phase::AskingTip),
{
}

/// A session never stands still: in every phase there is an event that it goes on with,
/// and no event leaves it in the phase that it is in.
pub proof fn theorem_sessions_never_stall(phase: Phase)
    ensures
        exists|event: SessionEvent| #[trigger] next_phase(phase, event) is Some,
        forall|event: SessionEvent| #[trigger] next_phase(phase, event) != Some(phase),
{
    let event = match phase {
        Phase::AskingTip => SessionEvent::Tip { batch_height: 0, now_seconds: 0 },
        Phase::AskingFeerate { .. } => SessionEvent::Feerate(0),
        Phase::AskingPending(_) => SessionEvent::Pending(false),
        Phase::Preparing(_) => SessionEvent::Failed,
        Phase::Polling { .. } => SessionEvent::Cosigned { all: true, now_ms: 0 },
        Phase::CheckingCosigns(_) => SessionEvent::Cosigned { all: true, now_ms: 0 },
        Phase::Counting(_) => SessionEvent::Entries(1),
        _ => SessionEvent::Done,
    };
    assert(next_phase(phase, event) is Some);
}

} // verus!
