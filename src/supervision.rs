use vstd::prelude::*;

use crate::address::ActorId;
use crate::error::ActorError;
use crate::message::{SupervisionEvent, SystemMessage};

verus! {

/// What a supervisor does when one of its children fails (`reset_window` in milliseconds).
#[derive(Clone, Copy, Debug, PartialEq, Eq, Structural)]
pub enum SupervisionStrategy {
    Stop,
    Restart { max_retries: Option<u32>, reset_window: Option<u64> },
    Resume,
    Escalate,
}

/// Failure bookkeeping of one actor cell: failures counted in the current window,
/// and the time at which that window opened.
#[derive(Clone, Copy, Debug, PartialEq, Eq, Structural)]
pub struct FailureRecord {
    pub count: u32,
    pub window_start: u64,
}

impl FailureRecord {
    pub fn new() -> (r: Self)
        ensures
            r.count == 0,
            r.window_start == 0,
    {
        FailureRecord { count: 0, window_start: 0 }
    }
}

/// The window is closed once more than `reset_window` has elapsed since it opened.
pub open spec fn window_expired(rec: FailureRecord, reset_window: Option<u64>, now: u64) -> bool {
    match reset_window {
        Some(w) => now > rec.window_start && now - rec.window_start > w,
        None => false,
    }
}

/// The record after one more failure at `now`: a new window opens at the first failure
/// and whenever the old one has expired; the count saturates.
pub open spec fn record_failure(rec: FailureRecord, reset_window: Option<u64>, now: u64) -> FailureRecord {
    if rec.count == 0 || window_expired(rec, reset_window, now) {
        FailureRecord { count: 1, window_start: now }
    } else if rec.count == u32::MAX {
        rec
    } else {
        FailureRecord { count: (rec.count + 1) as u32, window_start: rec.window_start }
    }
}

/// A count of failures is within the budget when it does not exceed `max_retries`.
pub open spec fn within_budget(count: u32, max_retries: Option<u32>) -> bool {
    match max_retries {
        Some(m) => count <= m,
        None => true,
    }
}

/// Records one failure at `now`, and says whether the actor may restart (`true`) or
/// must stop because the budget is spent (`false`).
pub fn register_failure(rec: FailureRecord, max_retries: Option<u32>, reset_window: Option<u64>, now: u64) -> (r: (bool, FailureRecord))
    ensures
        r.1 == record_failure(rec, reset_window, now),
        r.0 == within_budget(r.1.count, max_retries),
{
    let expired = match reset_window {
        Some(w) => now > rec.window_start && now - rec.window_start > w,
        None => false,
    };
    let next = if rec.count == 0 || expired {
        FailureRecord { count: 1, window_start: now }
    } else if rec.count == u32::MAX {
        rec
    } else {
        FailureRecord { count: rec.count + 1, window_start: rec.window_start }
    };
    let allowed = match max_retries {
        Some(m) => next.count <= m,
        None => true,
    };
    (allowed, next)
}

/// The system messages that a supervisor following `strategy` sends when `child` fails:
/// a stop or restart directive to the child, nothing, or the failure pushed up to the
/// supervisor's own parent.
pub open spec fn failure_sends(
    strategy: SupervisionStrategy,
    error: ActorError,
    child: ActorId,
    grandparent: Option<ActorId>,
) -> Seq<(ActorId, SystemMessage)> {
    match strategy {
        SupervisionStrategy::Stop => seq![(child, SystemMessage::Stop)],
        SupervisionStrategy::Restart { max_retries, reset_window } => seq![
            (child, SystemMessage::Restart { max_retries, reset_window }),
        ],
        SupervisionStrategy::Resume => Seq::empty(),
        SupervisionStrategy::Escalate => match grandparent {
            Some(g) => seq![
                (
                    g,
                    SystemMessage::Supervision(
                        SupervisionEvent::ChildFailure { child_id: child, error },
                    ),
                ),
            ],
            None => Seq::empty(),
        },
    }
}

/// Runs the supervision decision for a failed child: which system messages go where.
pub fn handle_failure(
    strategy: SupervisionStrategy,
    error: ActorError,
    child: ActorId,
    grandparent: Option<ActorId>,
) -> (r: Vec<(ActorId, SystemMessage)>)
    ensures
        r@ == failure_sends(strategy, error, child, grandparent),
{
    let mut sends: Vec<(ActorId, SystemMessage)> = Vec::new();
    match strategy {
        SupervisionStrategy::Stop => {
            sends.push((child, SystemMessage::Stop));
        },
        SupervisionStrategy::Restart { max_retries, reset_window } => {
            sends.push((child, SystemMessage::Restart { max_retries, reset_window }));
        },
        SupervisionStrategy::Resume => {},
        SupervisionStrategy::Escalate => {
            if let Some(g) = grandparent {
                sends.push(
                    (g, SystemMessage::Supervision(SupervisionEvent::ChildFailure { child_id: child, error })),
                );
            }
        },
    }
    proof {
        assert(sends@ =~= failure_sends(strategy, error, child, grandparent));
    }
    sends
}

/// Under `Restart { max_retries: 2, reset_window: w }`, three failures that fall within
/// `w` of the first allow exactly two restarts; the third spends the budget and stops.
pub proof fn lemma_restart_budget(w: u64, t1: u64, t2: u64, t3: u64, start: FailureRecord)
    requires
        start.count == 0,
        t1 <= t2 <= t3,
        t3 - t1 <= w,
    ensures
        ({
            let r1 = record_failure(start, Some(w), t1);
            let r2 = record_failure(r1, Some(w), t2);
            let r3 = record_failure(r2, Some(w), t3);
            &&& within_budget(r1.count, Some(2u32))
            &&& within_budget(r2.count, Some(2u32))
            &&& !within_budget(r3.count, Some(2u32))
            &&& r3.count == 3
        }),
{
}

/// A failure that falls outside the window opens a new one: the count starts again at one.
pub proof fn lemma_window_reset(rec: FailureRecord, w: u64, now: u64)
    requires
        now > rec.window_start,
        now - rec.window_start > w,
    ensures
        record_failure(rec, Some(w), now).count == 1,
        record_failure(rec, Some(w), now).window_start == now,
{
}

/// Escalation sends exactly one `ChildFailure` event, to the supervisor's parent, and no
/// directive to the child.
pub proof fn lemma_escalate_single_event(error: ActorError, child: ActorId, grandparent: ActorId)
    ensures
        ({
            let sends = failure_sends(SupervisionStrategy::Escalate, error, child, Some(grandparent));
            &&& sends.len() == 1
            &&& sends[0].0 == grandparent
            &&& sends[0].1 == SystemMessage::Supervision(
                SupervisionEvent::ChildFailure { child_id: child, error },
            )
            &&& forall|i: int| 0 <= i < sends.len() ==> sends[i].0 != child || child == grandparent
        }),
{
}

} // verus!
