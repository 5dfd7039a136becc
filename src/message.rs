use vstd::prelude::*;

use crate::address::ActorId;
use crate::error::ActorError;

verus! {

/// Messages that the runtime itself sends to an actor.
#[derive(Clone, Debug)]
pub enum SystemMessage {
    /// Stop the actor.
    Stop,
    /// Restart the actor, within the given retry budget (`reset_window` in milliseconds).
    Restart { max_retries: Option<u32>, reset_window: Option<u64> },
    /// A child of the actor has terminated.
    ChildTerminated(ActorId),
    /// A supervision event pushed up the tree.
    Supervision(SupervisionEvent),
}

/// Events of the supervision tree.
#[derive(Clone, Debug)]
pub enum SupervisionEvent {
    ChildFailure { child_id: ActorId, error: ActorError },
    ChildRestarted { child_id: ActorId },
    ChildStopped { child_id: ActorId },
}

/// An entry of a mailbox: an application message with its optional response slot,
/// a scheduled task re-injected by the scheduler, or a system message.
#[derive(Debug)]
pub enum Envelope<P> {
    User { payload: P, reply: Option<u64>, created_at: u64 },
    Scheduled { task: P, created_at: u64 },
    System(SystemMessage),
}

} // verus!
