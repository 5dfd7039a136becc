use vstd::prelude::*;

verus! {

/// Failure of a send, as seen by the sender.
#[derive(Clone, Copy, Debug, PartialEq, Eq, Structural)]
pub enum SendError {
    /// The target's mailbox is closed.
    Closed,
    /// The response slot was dropped before it was filled.
    Canceled,
    /// No actor at the selected path.
    NoHandler,
}

/// Failure of an actor, as seen by its supervisor.
#[derive(Clone, Debug)]
pub enum ActorError {
    Handler(String),
    Supervision(String),
    System(String),
    Panic(String),
    User(String),
}

} // verus!
