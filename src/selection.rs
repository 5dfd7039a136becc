use vstd::prelude::*;

use crate::address::{ActorId, ActorPath};
use crate::error::SendError;
use crate::message::Envelope;
use crate::system::{ask_outcome, asked, deliver, send_outcome, ActorRef, ActorSystem};

verus! {

/// Late-bound addressing: the path is resolved in the registry each time it is used.
#[derive(Debug)]
pub struct ActorSelection {
    path: ActorPath,
}

/// The actor registered under `path` in a system whose registry is `registry`.
pub open spec fn resolved(registry: Map<Seq<Seq<char>>, u64>, path: Seq<Seq<char>>) -> Option<ActorId> {
    if registry.contains_key(path) {
        Some(ActorId(registry[path]))
    } else {
        None
    }
}

impl ActorSelection {
    pub closed spec fn target_path(&self) -> Seq<Seq<char>> {
        self.path@
    }

    pub closed spec fn wf(&self) -> bool {
        self.path.wf()
    }

    pub fn new(path: ActorPath) -> (r: Self)
        requires
            path.wf(),
        ensures
            r.wf(),
            r.target_path() == path@,
    {
        ActorSelection { path }
    }

    /// The reference registered under the path now, if any.
    pub fn resolve<P>(&self, system: &ActorSystem<P>) -> (r: Option<ActorRef>)
        requires
            self.wf(),
            system.wf(),
        ensures
            r is Some <==> resolved(system@.registry, self.target_path()) is Some && system@.has(
                resolved(system@.registry, self.target_path())->Some_0,
            ),
            r matches Some(a) ==> Some(a.target()) == resolved(system@.registry, self.target_path())
                && a.path_view() == system@.cells[a.target().0 as int].path,
    {
        match system.actor_by_path(&self.path) {
            Some(id) => system.address(id),
            None => None,
        }
    }

    /// Tell through the path: `NoHandler` when nothing is registered under it,
    /// otherwise as `ActorSystem::do_send` on the registered actor.
    pub fn tell<P>(&self, system: &mut ActorSystem<P>, msg: P, now: u64) -> (r: Result<(), SendError>)
        requires
            self.wf(),
            old(system).wf(),
        ensures
            final(system).wf(),
            resolved(old(system)@.registry, self.target_path()) matches Some(id) ==> r == send_outcome(old(system)@.boxes, id)
                && final(system)@ == old(system)@.with_boxes(
                deliver(old(system)@.boxes, id, Envelope::User { payload: msg, reply: None, created_at: now }),
            ),
            resolved(old(system)@.registry, self.target_path()) is None ==> r == Err::<(), SendError>(SendError::NoHandler)
                && final(system)@ == old(system)@,
    {
        match system.actor_by_path(&self.path) {
            Some(id) => system.do_send(id, msg, now),
            None => Err(SendError::NoHandler),
        }
    }

    /// Ask through the path: `NoHandler` when nothing is registered under it,
    /// otherwise as `ActorSystem::send` on the registered actor.
    pub fn ask<P>(&self, system: &mut ActorSystem<P>, msg: P, now: u64) -> (r: Result<u64, SendError>)
        requires
            self.wf(),
            old(system).wf(),
        ensures
            final(system).wf(),
            resolved(old(system)@.registry, self.target_path()) matches Some(id) ==> r == ask_outcome(old(system)@, id)
                && final(system)@ == asked(old(system)@, id, msg, now),
            resolved(old(system)@.registry, self.target_path()) is None ==> r == Err::<u64, SendError>(SendError::NoHandler)
                && final(system)@ == old(system)@,
    {
        match system.actor_by_path(&self.path) {
            Some(id) => system.send(id, msg, now),
            None => Err(SendError::NoHandler),
        }
    }
}

} // verus!
