//! A hierarchical actor runtime: actors addressed by path, exchanging messages through
//! FIFO mailboxes, organised in supervision trees that stop, restart, resume or
//! escalate on failure, with a scheduler that re-injects delayed tasks as messages.
use vstd::prelude::*;

pub mod actor;
pub mod address;
pub mod context;
pub mod error;
pub mod mailbox;
pub mod message;
pub mod protocol;
pub mod registry;
pub mod selection;
pub mod supervision;
pub mod system;

pub use actor::{Actor, AnyActorRef, Handler, Message, MessageHandler, MessageMiddleware};
pub use address::{ActorId, ActorPath};
pub use context::BasicContext;
pub use error::{ActorError, SendError};
pub use mailbox::Mailbox;
pub use message::{Envelope, SupervisionEvent, SystemMessage};
pub use protocol::{make_method_name, ChromeAdapter};
pub use selection::ActorSelection;
pub use supervision::{handle_failure, FailureRecord, SupervisionStrategy};
pub use system::{
    ActorRef, ActorState, ActorSystem, ActorSystemConfig, Delivery, ExecutionContextConfig, ReplySlot,
};

verus! {

/// The library's version.
pub const VERSION: &'static str = "0.1.0";

} // verus!
