use vstd::prelude::*;

use crate::address::ActorId;
use crate::error::SendError;
use crate::system::{due_at, spawn_allowed, spawned, stopped_view, ActorRef, ActorSystem, SystemView, Timer};

verus! {

/// The environment of one actor: the operations an actor performs on the system in
/// its own name.
#[derive(Clone, Copy, Debug)]
pub struct BasicContext {
    actor_id: ActorId,
}

impl BasicContext {
    pub closed spec fn owner(&self) -> ActorId {
        self.actor_id
    }

    pub fn new(actor_id: ActorId) -> (r: Self)
        ensures
            r.owner() == actor_id,
    {
        BasicContext { actor_id }
    }

    pub fn actor_id(&self) -> (r: ActorId)
        ensures
            r == self.owner(),
    {
        self.actor_id
    }

    /// Spawns a child of this actor named `name`.
    pub fn spawn<P>(&self, system: &mut ActorSystem<P>, name: &str) -> (r: Result<ActorRef, SendError>)
        requires
            old(system).wf(),
        ensures
            final(system).wf(),
            !spawn_allowed(old(system)@, self.owner()) ==> r == Err::<ActorRef, SendError>(SendError::Closed)
                && final(system)@ == old(system)@,
            spawn_allowed(old(system)@, self.owner()) ==> r is Ok && final(system)@ == spawned(
                old(system)@,
                self.owner(),
                name@,
            ),
            r matches Ok(a) ==> a.target() == ActorId(old(system)@.cells.len() as u64)
                && a.path_view() == old(system)@.cells[self.owner().0 as int].path.push(name@),
    {
        system.spawn(self.actor_id, name)
    }

    /// Schedules `task` to come back to this actor's mailbox after `delay`.
    pub fn schedule<P>(&self, system: &mut ActorSystem<P>, delay: u64, task: P, now: u64) -> (r: bool)
        requires
            old(system).wf(),
        ensures
            final(system).wf(),
            r == !old(system)@.shut_down,
            final(system)@ == (if r {
                SystemView {
                    timers: old(system)@.timers.push(Timer { due: due_at(now, delay), target: self.owner(), task }),
                    ..old(system)@
                }
            } else {
                old(system)@
            }),
    {
        system.schedule(self.actor_id, delay, task, now)
    }

    /// Stops this actor: children told to stop, parent notified, mailbox closed; it is
    /// `Stopping` until its loop runs the stop hooks.
    pub fn stop<P>(&self, system: &mut ActorSystem<P>)
        requires
            old(system).wf(),
        ensures
            final(system).wf(),
            final(system)@ == (if old(system)@.has(self.owner()) && !old(system)@.boxes[self.owner().0 as int].closed {
                stopped_view(old(system)@, self.owner().0 as int)
            } else {
                old(system)@
            }),
    {
        system.stop(self.actor_id)
    }

    /// A reference to this actor.
    pub fn address<P>(&self, system: &ActorSystem<P>) -> (r: Option<ActorRef>)
        requires
            system.wf(),
        ensures
            r is Some <==> system@.has(self.owner()),
            r matches Some(a) ==> a.target() == self.owner() && a.path_view() == system@.cells[self.owner().0 as int].path,
    {
        system.address(self.actor_id)
    }
}

} // verus!
