use vstd::prelude::*;

use crate::address::ActorId;
use crate::error::SendError;
use crate::message::{Envelope, SystemMessage};
use crate::system::{ask_outcome, asked, deliver, send_outcome, ActorRef, ActorSystem};

verus! {

/// An actor's lifecycle hooks, run by its mailbox loop: `started` once per instance,
/// then `stopping` and `stopped` when it stops (skipped for an instance replaced by a
/// restart).
pub trait Actor {
    fn started(&mut self);

    fn stopping(&mut self);

    fn stopped(&mut self);
}

/// A message type, paired with the type of its result.
pub trait Message {
    type Result;
}

/// Processing of one message type `M`, giving `M`'s result.
pub trait Handler<M: Message>: Actor {
    fn handle(&mut self, msg: M) -> M::Result;
}

/// A message-type-independent capability on an actor.
pub trait AnyActorRef {
    spec fn target_id(&self) -> ActorId;

    /// Requests a stop: a `Stop` system message is enqueued.
    fn stop<P>(&self, system: &mut ActorSystem<P>) -> (r: Result<(), SendError>)
        requires
            old(system).wf(),
        ensures
            final(system).wf(),
            final(system)@ == old(system)@.with_boxes(
                deliver(old(system)@.boxes, self.target_id(), Envelope::System(SystemMessage::Stop)),
            ),
            r == send_outcome(old(system)@.boxes, self.target_id()),
    ;

    fn send_system_message<P>(&self, system: &mut ActorSystem<P>, msg: SystemMessage) -> (r: Result<(), SendError>)
        requires
            old(system).wf(),
        ensures
            final(system).wf(),
            final(system)@ == old(system)@.with_boxes(deliver(old(system)@.boxes, self.target_id(), Envelope::System(msg))),
            r == send_outcome(old(system)@.boxes, self.target_id()),
    ;
}

/// Sending of one message type, by ask or by tell.
pub trait MessageHandler<M> {
    spec fn handler_target(&self) -> ActorId;

    fn send(&self, system: &mut ActorSystem<M>, msg: M, now: u64) -> (r: Result<u64, SendError>)
        requires
            old(system).wf(),
        ensures
            final(system).wf(),
            final(system)@ == asked(old(system)@, self.handler_target(), msg, now),
            r == ask_outcome(old(system)@, self.handler_target()),
    ;

    fn do_send(&self, system: &mut ActorSystem<M>, msg: M, now: u64) -> (r: Result<(), SendError>)
        requires
            old(system).wf(),
        ensures
            final(system).wf(),
            final(system)@ == old(system)@.with_boxes(
                deliver(old(system)@.boxes, self.handler_target(), Envelope::User { payload: msg, reply: None, created_at: now }),
            ),
            r == send_outcome(old(system)@.boxes, self.handler_target()),
    ;
}

/// A filter on messages entering or leaving an actor; `false` drops the message.
pub trait MessageMiddleware<M> {
    fn handle_incoming(&self, msg: &M) -> bool;

    fn handle_outgoing(&self, msg: &M) -> bool;
}

impl AnyActorRef for ActorRef {
    open spec fn target_id(&self) -> ActorId {
        self.target()
    }

    fn stop<P>(&self, system: &mut ActorSystem<P>) -> (r: Result<(), SendError>) {
        system.send_system_message(self.id(), SystemMessage::Stop)
    }

    fn send_system_message<P>(&self, system: &mut ActorSystem<P>, msg: SystemMessage) -> (r: Result<(), SendError>) {
        system.send_system_message(self.id(), msg)
    }
}

impl<M> MessageHandler<M> for ActorRef {
    open spec fn handler_target(&self) -> ActorId {
        self.target()
    }

    fn send(&self, system: &mut ActorSystem<M>, msg: M, now: u64) -> (r: Result<u64, SendError>) {
        system.send(self.id(), msg, now)
    }

    fn do_send(&self, system: &mut ActorSystem<M>, msg: M, now: u64) -> (r: Result<(), SendError>) {
        system.do_send(self.id(), msg, now)
    }
}

} // verus!
