use vstd::prelude::*;

use crate::address::{ActorId, ActorPath};
use crate::error::{ActorError, SendError};
use crate::mailbox::{enqueued, Mailbox, MailboxView};
use crate::message::{Envelope, SystemMessage};
use crate::registry::Registry;
use crate::supervision::{
    failure_sends, handle_failure, record_failure, register_failure, within_budget,
    FailureRecord, SupervisionStrategy,
};

verus! {

broadcast use vstd::string::group_string_axioms;

/// Lifecycle of an actor cell:
/// `Initializing -> Running -> {Stopping -> Stopped} | {Failed -> Restarting -> Running}`.
#[derive(Clone, Copy, Debug, PartialEq, Eq, Structural)]
pub enum ActorState {
    Initializing,
    Running,
    Stopping,
    Stopped,
    Failed,
    Restarting,
}

/// The single-use response slot of an ask.
#[derive(Debug)]
pub enum ReplySlot<P> {
    Pending,
    Filled(P),
    Canceled,
    Taken,
}

/// A delayed one-shot task: on expiry it is re-injected into `target`'s mailbox.
#[derive(Debug)]
pub struct Timer<P> {
    pub due: u64,
    pub target: ActorId,
    pub task: P,
}

/// What the mailbox loop of an actor has to do next.
#[derive(Debug)]
pub enum Delivery<P> {
    /// Run the handler on an application message.
    Message(P),
    /// Run a scheduled task.
    Task(P),
    /// Discard the instance, build a fresh one from the factory and start it.
    Restart,
    /// The actor stopped: run its stop hooks and drop it.
    Stopped,
    /// A notification for the actor in its supervising role.
    System(SystemMessage),
}

/// Options of an actor system.
#[derive(Clone, Copy, Debug)]
pub struct ActorSystemConfig {
    pub thread_pool_size: usize,
}

impl ActorSystemConfig {
    pub fn new(thread_pool_size: usize) -> (r: Self)
        ensures
            r.thread_pool_size == thread_pool_size,
    {
        ActorSystemConfig { thread_pool_size }
    }
}

impl Default for ActorSystemConfig {
    fn default() -> (r: Self)
        ensures
            r.thread_pool_size == 0,
    {
        ActorSystemConfig { thread_pool_size: 0 }
    }
}

/// Options of the execution substrate (`scheduler_tick_duration` in milliseconds).
#[derive(Clone, Copy, Debug)]
pub struct ExecutionContextConfig {
    pub thread_pool_size: usize,
    pub scheduler_tick_duration: u64,
}

impl Default for ExecutionContextConfig {
    fn default() -> (r: Self)
        ensures
            r.thread_pool_size == 0,
            r.scheduler_tick_duration == 0,
    {
        ExecutionContextConfig { thread_pool_size: 0, scheduler_tick_duration: 0 }
    }
}

/// A capability for sending to one actor: its identity and path.
#[derive(Debug)]
pub struct ActorRef {
    id: ActorId,
    path: ActorPath,
}

impl ActorRef {
    pub closed spec fn target(&self) -> ActorId {
        self.id
    }

    pub closed spec fn path_view(&self) -> Seq<Seq<char>> {
        self.path@
    }

    pub fn id(&self) -> (r: ActorId)
        ensures
            r == self.target(),
    {
        self.id
    }

    pub fn path(&self) -> (r: &ActorPath)
        ensures
            r@ == self.path_view(),
    {
        &self.path
    }

    /// A reference to the same actor.
    pub fn copy(&self) -> (r: ActorRef)
        ensures
            r.target() == self.target(),
            r.path_view() == self.path_view(),
    {
        ActorRef { id: self.id, path: self.path.copy() }
    }

    /// Tell: enqueue `msg` without a response slot.
    pub fn do_send<P>(&self, system: &mut ActorSystem<P>, msg: P, now: u64) -> (r: Result<(), SendError>)
        requires
            old(system).wf(),
        ensures
            final(system).wf(),
            final(system)@ == old(system)@.with_boxes(
                deliver(old(system)@.boxes, self.target(), Envelope::User { payload: msg, reply: None, created_at: now }),
            ),
            r == send_outcome(old(system)@.boxes, self.target()),
    {
        system.do_send(self.id, msg, now)
    }

    /// Ask: enqueue `msg` with a fresh response slot, whose number is returned.
    pub fn send<P>(&self, system: &mut ActorSystem<P>, msg: P, now: u64) -> (r: Result<u64, SendError>)
        requires
            old(system).wf(),
        ensures
            final(system).wf(),
            final(system)@ == asked(old(system)@, self.target(), msg, now),
            r == ask_outcome(old(system)@, self.target()),
    {
        system.send(self.id, msg, now)
    }
}

/// The observable part of one actor cell.
pub struct CellView {
    pub path: Seq<Seq<char>>,
    pub parent: Option<ActorId>,
    pub children: Seq<(Seq<char>, ActorId)>,
    pub state: ActorState,
    pub strategy: SupervisionStrategy,
    pub failures: FailureRecord,
    pub busy: bool,
    pub in_flight: Option<u64>,
}

/// The observable state of an actor system, cells and mailboxes indexed by actor id.
pub struct SystemView<P> {
    pub cells: Seq<CellView>,
    pub boxes: Seq<MailboxView<P>>,
    pub replies: Seq<ReplySlot<P>>,
    pub timers: Seq<Timer<P>>,
    pub registry: Map<Seq<Seq<char>>, u64>,
    pub shut_down: bool,
    pub name: Seq<char>,
}

impl<P> SystemView<P> {
    pub open spec fn with_boxes(self, boxes: Seq<MailboxView<P>>) -> SystemView<P> {
        SystemView { boxes, ..self }
    }

    pub open spec fn with_replies(self, replies: Seq<ReplySlot<P>>) -> SystemView<P> {
        SystemView { replies, ..self }
    }

    pub open spec fn with_cell(self, id: int, c: CellView) -> SystemView<P> {
        SystemView { cells: self.cells.update(id, c), ..self }
    }

    pub open spec fn has(self, id: ActorId) -> bool {
        (id.0 as int) < self.cells.len()
    }
}

/// The mailboxes after `e` is offered to `to`: appended if `to` exists and is open.
pub open spec fn deliver<P>(boxes: Seq<MailboxView<P>>, to: ActorId, e: Envelope<P>) -> Seq<MailboxView<P>> {
    if (to.0 as int) < boxes.len() {
        boxes.update(to.0 as int, enqueued(boxes[to.0 as int], e))
    } else {
        boxes
    }
}

/// The result of offering an envelope to `to`.
pub open spec fn send_outcome<P>(boxes: Seq<MailboxView<P>>, to: ActorId) -> Result<(), SendError> {
    if (to.0 as int) < boxes.len() && !boxes[to.0 as int].closed {
        Ok(())
    } else {
        Err(SendError::Closed)
    }
}

/// The mailboxes after each system message of `sends` is offered in turn.
pub open spec fn post_all<P>(boxes: Seq<MailboxView<P>>, sends: Seq<(ActorId, SystemMessage)>) -> Seq<MailboxView<P>>
    decreases sends.len(),
{
    if sends.len() == 0 {
        boxes
    } else {
        let last = sends.last();
        deliver(post_all(boxes, sends.drop_last()), last.0, Envelope::System(last.1))
    }
}

/// The system after an ask: a fresh pending slot, and the message offered with it.
pub open spec fn asked<P>(v: SystemView<P>, to: ActorId, msg: P, now: u64) -> SystemView<P> {
    if send_outcome(v.boxes, to) is Ok {
        SystemView {
            boxes: deliver(v.boxes, to, Envelope::User { payload: msg, reply: Some(v.replies.len() as u64), created_at: now }),
            replies: v.replies.push(ReplySlot::Pending),
            ..v
        }
    } else {
        v
    }
}

/// The result of an ask: the number of the new slot, or `Closed`.
pub open spec fn ask_outcome<P>(v: SystemView<P>, to: ActorId) -> Result<u64, SendError> {
    if send_outcome(v.boxes, to) is Ok {
        Ok(v.replies.len() as u64)
    } else {
        Err(SendError::Closed)
    }
}

/// The response slot that an envelope carries.
pub open spec fn reply_of<P>(e: Envelope<P>) -> Option<u64> {
    match e {
        Envelope::User { reply, .. } => reply,
        _ => None,
    }
}

/// The slots with `r` canceled, if it names one.
pub open spec fn cancel<P>(replies: Seq<ReplySlot<P>>, r: Option<u64>) -> Seq<ReplySlot<P>> {
    match r {
        Some(k) => if (k as int) < replies.len() {
            replies.update(k as int, ReplySlot::Canceled)
        } else {
            replies
        },
        None => replies,
    }
}

/// The slots with the slot of every envelope of `es` canceled.
pub open spec fn cancel_all<P>(replies: Seq<ReplySlot<P>>, es: Seq<Envelope<P>>) -> Seq<ReplySlot<P>>
    decreases es.len(),
{
    if es.len() == 0 {
        replies
    } else {
        cancel(cancel_all(replies, es.drop_last()), reply_of(es.last()))
    }
}

/// What a stopping actor sends: `Stop` to each child, oldest first, then
/// `ChildTerminated` to its parent.
pub open spec fn stop_sends(c: CellView, id: ActorId) -> Seq<(ActorId, SystemMessage)> {
    c.children.map_values(|ch: (Seq<char>, ActorId)| (ch.1, SystemMessage::Stop)) + match c.parent {
        Some(p) => seq![(p, SystemMessage::ChildTerminated(id))],
        None => Seq::empty(),
    }
}

/// The system after actor `id` begins to stop: its pending asks are canceled, its
/// mailbox is closed and emptied, its children are told to stop, its parent is
/// notified, and it is `Stopping` until its mailbox loop runs its stop hooks.
pub open spec fn stopped_view<P>(v: SystemView<P>, id: int) -> SystemView<P> {
    let c = v.cells[id];
    let replies = cancel_all(cancel(v.replies, c.in_flight), v.boxes[id].queue);
    let closed = v.boxes.update(id, MailboxView { queue: Seq::empty(), closed: true });
    SystemView {
        cells: v.cells.update(
            id,
            CellView { state: ActorState::Stopping, children: Seq::empty(), busy: false, in_flight: None, ..c },
        ),
        boxes: post_all(closed, stop_sends(c, ActorId(id as u64))),
        replies,
        ..v
    }
}

/// The system once the stop hooks of `id` have run: it is `Stopped`.
pub open spec fn finished<P>(v: SystemView<P>, id: int) -> SystemView<P> {
    v.with_cell(id, CellView { state: ActorState::Stopped, ..v.cells[id] })
}

/// `Stop` to each child, oldest first.
pub open spec fn children_stop_sends(c: CellView) -> Seq<(ActorId, SystemMessage)> {
    c.children.map_values(|ch: (Seq<char>, ActorId)| (ch.1, SystemMessage::Stop))
}

/// The system after actor `id` is restarted with failure record `rec`: its children
/// are told to stop and forgotten, and it waits to be started again.
pub open spec fn restarted_view<P>(v: SystemView<P>, id: int, rec: FailureRecord) -> SystemView<P> {
    let c = v.cells[id];
    SystemView {
        cells: v.cells.update(
            id,
            CellView { state: ActorState::Restarting, children: Seq::empty(), failures: rec, ..c },
        ),
        boxes: post_all(v.boxes, children_stop_sends(c)),
        ..v
    }
}

/// The mailbox loop of `id` may hand out its oldest envelope: the actor exists, runs
/// (or has failed and awaits its directive), is not inside a handler, and has mail.
pub open spec fn ready<P>(v: SystemView<P>, id: ActorId) -> bool {
    &&& v.has(id)
    &&& !v.cells[id.0 as int].busy
    &&& (v.cells[id.0 as int].state == ActorState::Running || v.cells[id.0 as int].state == ActorState::Failed)
    &&& v.boxes[id.0 as int].queue.len() > 0
}

/// The system with the oldest envelope of `id` taken out.
pub open spec fn popped<P>(v: SystemView<P>, id: int) -> SystemView<P> {
    v.with_boxes(
        v.boxes.update(id, MailboxView { queue: v.boxes[id].queue.drop_first(), closed: v.boxes[id].closed }),
    )
}

/// One step of the mailbox loop of `id` at time `now`: the next state, and what the
/// loop must do.
pub open spec fn take_next_spec<P>(v: SystemView<P>, id: ActorId, now: u64) -> (SystemView<P>, Option<Delivery<P>>) {
    if !(v.has(id) && !v.cells[id.0 as int].busy) {
        (v, None)
    } else if v.cells[id.0 as int].state == ActorState::Stopping {
        (finished(v, id.0 as int), Some(Delivery::Stopped))
    } else if !ready(v, id) {
        (v, None)
    } else {
        let i = id.0 as int;
        let c = v.cells[i];
        let w = popped(v, i);
        match v.boxes[i].queue[0] {
            Envelope::User { payload, reply, .. } => (
                w.with_cell(i, CellView { busy: true, in_flight: reply, ..c }),
                Some(Delivery::Message(payload)),
            ),
            Envelope::Scheduled { task, .. } => (
                w.with_cell(i, CellView { busy: true, in_flight: None, ..c }),
                Some(Delivery::Task(task)),
            ),
            Envelope::System(SystemMessage::Stop) => (finished(stopped_view(w, i), i), Some(Delivery::Stopped)),
            Envelope::System(SystemMessage::Restart { max_retries, reset_window }) => {
                let rec = record_failure(c.failures, reset_window, now);
                if within_budget(rec.count, max_retries) {
                    (restarted_view(w, i, rec), Some(Delivery::Restart))
                } else {
                    (finished(stopped_view(w.with_cell(i, CellView { failures: rec, ..c }), i), i), Some(Delivery::Stopped))
                }
            },
            Envelope::System(SystemMessage::ChildTerminated(gone)) => (
                w.with_cell(
                    i,
                    CellView { children: without_child(c.children, gone), ..c },
                ),
                Some(Delivery::System(SystemMessage::ChildTerminated(gone))),
            ),
            Envelope::System(SystemMessage::Supervision(ev)) => (w, Some(Delivery::System(SystemMessage::Supervision(ev)))),
        }
    }
}

/// The supervisor of `id` and the strategy it applies: its parent's, or none for the root.
pub open spec fn supervisor_of<P>(v: SystemView<P>, id: int) -> Option<(ActorId, SupervisionStrategy)> {
    match v.cells[id].parent {
        Some(p) => if v.has(p) {
            Some((p, v.cells[p.0 as int].strategy))
        } else {
            None
        },
        None => None,
    }
}

/// The system after the handler running in `id` finishes with `outcome`. A result fills
/// the response slot. A failure cancels it, marks the actor failed and runs the
/// supervisor's decision; an actor without supervisor stops.
pub open spec fn completed<P>(v: SystemView<P>, id: ActorId, outcome: Result<P, ActorError>) -> SystemView<P> {
    if !(v.has(id) && v.cells[id.0 as int].busy) {
        v
    } else {
        let i = id.0 as int;
        let c = v.cells[i];
        match outcome {
            Ok(resp) => {
                let replies = match c.in_flight {
                    Some(r) => if (r as int) < v.replies.len() {
                        v.replies.update(r as int, ReplySlot::Filled(resp))
                    } else {
                        v.replies
                    },
                    None => v.replies,
                };
                v.with_replies(replies).with_cell(i, CellView { busy: false, in_flight: None, ..c })
            },
            Err(e) => {
                let failed = v.with_replies(cancel(v.replies, c.in_flight)).with_cell(
                    i,
                    CellView { busy: false, in_flight: None, state: ActorState::Failed, ..c },
                );
                match supervisor_of(v, i) {
                    None => stopped_view(failed, i),
                    Some((p, strategy)) => {
                        let sent = failed.with_boxes(
                            post_all(failed.boxes, failure_sends(strategy, e, id, v.cells[p.0 as int].parent)),
                        );
                        if strategy is Resume || strategy is Escalate {
                            sent.with_cell(
                                i,
                                CellView { busy: false, in_flight: None, state: ActorState::Running, ..c },
                            )
                        } else {
                            sent
                        }
                    },
                }
            },
        }
    }
}

/// The children without the entries for `gone`.
pub open spec fn without_child(children: Seq<(Seq<char>, ActorId)>, gone: ActorId) -> Seq<(Seq<char>, ActorId)> {
    children.filter(|ch: (Seq<char>, ActorId)| ch.1 != gone)
}

/// The index of the first child entry named `name`, or -1.
pub open spec fn named_index(s: Seq<(Seq<char>, ActorId)>, name: Seq<char>) -> int
    decreases s.len(),
{
    if s.len() == 0 {
        -1
    } else {
        let k = named_index(s.drop_last(), name);
        if k >= 0 {
            k
        } else if s.last().0 == name {
            s.len() - 1
        } else {
            -1
        }
    }
}

/// The children with `name` recorded as `id`: an entry of that name is overwritten,
/// otherwise one is appended.
pub open spec fn upsert_child(s: Seq<(Seq<char>, ActorId)>, name: Seq<char>, id: ActorId) -> Seq<(Seq<char>, ActorId)> {
    let k = named_index(s, name);
    if k >= 0 {
        s.update(k, (name, id))
    } else {
        s.push((name, id))
    }
}

/// A spawn under `parent` is possible: the system runs, the parent exists and is not
/// stopped, and one more identity is available.
pub open spec fn spawn_allowed<P>(v: SystemView<P>, parent: ActorId) -> bool {
    &&& !v.shut_down
    &&& v.has(parent)
    &&& !v.boxes[parent.0 as int].closed
    &&& v.cells.len() < u64::MAX - 1
}

/// A fresh cell at `path` under `parent`, waiting to be started.
pub open spec fn fresh_cell(path: Seq<Seq<char>>, parent: ActorId) -> CellView {
    CellView {
        path,
        parent: Some(parent),
        children: Seq::empty(),
        state: ActorState::Initializing,
        strategy: SupervisionStrategy::Stop,
        failures: FailureRecord { count: 0, window_start: 0 },
        busy: false,
        in_flight: None,
    }
}

/// The system after `name` is spawned under `parent` with the next identity.
pub open spec fn spawned<P>(v: SystemView<P>, parent: ActorId, name: Seq<char>) -> SystemView<P> {
    let id = ActorId(v.cells.len() as u64);
    let pc = v.cells[parent.0 as int];
    let path = pc.path.push(name);
    SystemView {
        cells: v.cells.update(parent.0 as int, CellView { children: upsert_child(pc.children, name, id), ..pc }).push(
            fresh_cell(path, parent),
        ),
        boxes: v.boxes.push(MailboxView { queue: Seq::empty(), closed: false }),
        registry: v.registry.insert(path, id.0),
        ..v
    }
}

/// The instant at which a task scheduled at `now` with `delay` falls due.
pub open spec fn due_at(now: u64, delay: u64) -> u64 {
    if now + delay > u64::MAX {
        u64::MAX
    } else {
        (now + delay) as u64
    }
}

/// The mailboxes after every timer of `ts` that is due at `now` has been re-injected
/// into its target's mailbox as a scheduled task, oldest timer first.
pub open spec fn fire_due<P>(boxes: Seq<MailboxView<P>>, ts: Seq<Timer<P>>, now: u64) -> Seq<MailboxView<P>>
    decreases ts.len(),
{
    if ts.len() == 0 {
        boxes
    } else {
        let b = fire_due(boxes, ts.drop_last(), now);
        let t = ts.last();
        if t.due <= now {
            deliver(b, t.target, Envelope::Scheduled { task: t.task, created_at: now })
        } else {
            b
        }
    }
}

/// The timers of `ts` that are not yet due at `now`.
pub open spec fn not_due<P>(ts: Seq<Timer<P>>, now: u64) -> Seq<Timer<P>> {
    ts.filter(|t: Timer<P>| t.due > now)
}

/// Offering to mailboxes only appends: what each mailbox held stays in front.
pub proof fn lemma_post_all_extends<P>(boxes: Seq<MailboxView<P>>, sends: Seq<(ActorId, SystemMessage)>, j: int)
    requires
        0 <= j < boxes.len(),
    ensures
        post_all(boxes, sends).len() == boxes.len(),
        boxes[j].queue.len() <= post_all(boxes, sends)[j].queue.len(),
        forall|k: int| 0 <= k < boxes[j].queue.len() ==> #[trigger] post_all(boxes, sends)[j].queue[k] == boxes[j].queue[k],
    decreases sends.len(),
{
    if sends.len() > 0 {
        lemma_post_all_extends(boxes, sends.drop_last(), j);
    }
}

/// Actor `i` holds the ask whose slot is `r`: it is being handled or waits in the mailbox.
pub open spec fn awaits<P>(v: SystemView<P>, i: int, r: u64) -> bool {
    ||| v.cells[i].in_flight == Some(r)
    ||| exists|k: int| 0 <= k < v.boxes[i].queue.len() && reply_of(#[trigger] v.boxes[i].queue[k]) == Some(r)
}

/// A scheduled task runs once, and not early: a tick before its due time delivers
/// nothing and keeps it pending; a tick at or after it delivers it to its target and
/// drops it, so that later ticks deliver nothing more.
pub proof fn lemma_timer_fires_once<P>(boxes: Seq<MailboxView<P>>, t: Timer<P>, now: u64, later: u64)
    ensures
        now < t.due ==> fire_due(boxes, seq![t], now) == boxes && not_due(seq![t], now) == seq![t],
        now >= t.due ==> fire_due(boxes, seq![t], now) == deliver(
            boxes,
            t.target,
            Envelope::Scheduled { task: t.task, created_at: now },
        ) && not_due(seq![t], now) == Seq::<Timer<P>>::empty(),
        fire_due(boxes, Seq::<Timer<P>>::empty(), later) == boxes,
{
    reveal(Seq::filter);
    assert(seq![t].drop_last() =~= Seq::<Timer<P>>::empty());
    assert(seq![t].last() == t);
    assert(fire_due(boxes, seq![t].drop_last(), now) == boxes);
    assert(not_due(seq![t].drop_last(), now) == Seq::<Timer<P>>::empty());
    if now < t.due {
        assert(not_due(seq![t], now) =~= seq![t]);
    } else {
        assert(not_due(seq![t], now) =~= Seq::<Timer<P>>::empty());
    }
}

/// Offering to mailboxes leaves a closed one as it is.
pub proof fn lemma_post_all_keeps_closed<P>(boxes: Seq<MailboxView<P>>, sends: Seq<(ActorId, SystemMessage)>, j: int)
    requires
        0 <= j < boxes.len(),
        boxes[j].closed,
    ensures
        post_all(boxes, sends).len() == boxes.len(),
        post_all(boxes, sends)[j] == boxes[j],
    decreases sends.len(),
{
    if sends.len() > 0 {
        lemma_post_all_keeps_closed(boxes, sends.drop_last(), j);
    }
}

/// Cancelling only ever turns slots into `Canceled`: a slot already canceled stays so,
/// and the slot of every envelope of `es` ends canceled.
pub proof fn lemma_cancel_all<P>(replies: Seq<ReplySlot<P>>, es: Seq<Envelope<P>>, r: u64)
    requires
        (r as int) < replies.len(),
        replies[r as int] is Canceled || exists|k: int| 0 <= k < es.len() && reply_of(#[trigger] es[k]) == Some(r),
    ensures
        cancel_all(replies, es).len() == replies.len(),
        cancel_all(replies, es)[r as int] is Canceled,
    decreases es.len(),
{
    if es.len() > 0 {
        if replies[r as int] is Canceled || exists|k: int| 0 <= k < es.len() - 1 && reply_of(#[trigger] es[k]) == Some(r) {
            if !(replies[r as int] is Canceled) {
                let k = choose|k: int| 0 <= k < es.len() - 1 && reply_of(#[trigger] es[k]) == Some(r);
                assert(es.drop_last()[k] == es[k]);
            }
            lemma_cancel_all(replies, es.drop_last(), r);
        } else {
            lemma_cancel_all_len(replies, es.drop_last());
        }
    }
}

/// Cancelling keeps the number of slots.
pub proof fn lemma_cancel_all_len<P>(replies: Seq<ReplySlot<P>>, es: Seq<Envelope<P>>)
    ensures
        cancel_all(replies, es).len() == replies.len(),
    decreases es.len(),
{
    if es.len() > 0 {
        lemma_cancel_all_len(replies, es.drop_last());
    }
}

/// Exactly one handler invocation per actor at a time: while a handler of `id` runs,
/// its mailbox loop hands out nothing; and once it hands out a message or a task, it
/// hands out nothing more until that invocation completes.
pub proof fn lemma_one_handler_at_a_time<P>(v: SystemView<P>, id: ActorId, now: u64, later: u64)
    requires
        v.has(id),
    ensures
        v.cells[id.0 as int].busy ==> take_next_spec(v, id, now) == (v, None::<Delivery<P>>),
        ({
            let (w, d) = take_next_spec(v, id, now);
            (d matches Some(Delivery::Message(_)) || d matches Some(Delivery::Task(_))) ==> w.cells[id.0 as int].busy
                && take_next_spec(w, id, later) == (w, None::<Delivery<P>>)
        }),
{
}

/// A closed mailbox refuses: tell and ask both fail with `Closed`, and an ask leaves
/// the system as it was.
pub proof fn lemma_closed_refuses<P>(v: SystemView<P>, to: ActorId, msg: P, now: u64)
    requires
        v.cells.len() == v.boxes.len(),
        v.has(to),
        v.boxes[to.0 as int].closed,
    ensures
        send_outcome(v.boxes, to) == Err::<(), SendError>(SendError::Closed),
        ask_outcome(v, to) == Err::<u64, SendError>(SendError::Closed),
        asked(v, to, msg, now) == v,
{
}

/// Once an actor stops, its mailbox is closed, and every ask still waiting on it (the
/// one being handled or one queued) resolves to `Canceled`.
pub proof fn lemma_stop_cancels_asks<P>(v: SystemView<P>, id: int, r: u64)
    requires
        v.cells.len() == v.boxes.len(),
        0 <= id < v.cells.len(),
        (r as int) < v.replies.len(),
        v.cells[id].in_flight == Some(r) || exists|k: int| 0 <= k < v.boxes[id].queue.len() && reply_of(#[trigger] v.boxes[id].queue[k]) == Some(r),
    ensures
        stopped_view(v, id).replies[r as int] is Canceled,
        stopped_view(v, id).boxes[id].closed,
{
    let c = v.cells[id];
    let first = cancel(v.replies, c.in_flight);
    if c.in_flight == Some(r) {
        assert(first[r as int] is Canceled);
    }
    lemma_cancel_all(first, v.boxes[id].queue, r);
    let closed = v.boxes.update(id, MailboxView { queue: Seq::empty(), closed: true });
    lemma_post_all_keeps_closed(closed, stop_sends(c, ActorId(id as u64)), id);
}

/// An ask whose handler fails resolves to `Canceled`: the sender never sees the error.
pub proof fn lemma_failure_cancels_ask<P>(v: SystemView<P>, id: ActorId, e: ActorError, r: u64)
    requires
        v.cells.len() == v.boxes.len(),
        v.has(id),
        v.cells[id.0 as int].busy,
        v.cells[id.0 as int].in_flight == Some(r),
        (r as int) < v.replies.len(),
    ensures
        completed(v, id, Err(e)).replies[r as int] is Canceled,
{
    let i = id.0 as int;
    let c = v.cells[i];
    let failed = v.with_replies(cancel(v.replies, c.in_flight)).with_cell(
        i,
        CellView { busy: false, in_flight: None, state: ActorState::Failed, ..c },
    );
    if supervisor_of(v, i) is None {
        lemma_cancel_all(cancel(failed.replies, None), failed.boxes[i].queue, r);
    }
}

/// Escalation leaves the failed child alone: no directive reaches its mailbox, it goes
/// on running, and exactly one `ChildFailure` event is offered to its supervisor's parent.
pub proof fn lemma_escalate_leaves_child<P>(v: SystemView<P>, id: ActorId, e: ActorError, p: ActorId, g: ActorId)
    requires
        v.cells.len() == v.boxes.len(),
        v.has(id),
        v.cells[id.0 as int].busy,
        supervisor_of(v, id.0 as int) == Some((p, SupervisionStrategy::Escalate)),
        v.cells[p.0 as int].parent == Some(g),
        g != id,
    ensures
        ({
            let w = completed(v, id, Err(e));
            &&& w.boxes[id.0 as int] == v.boxes[id.0 as int]
            &&& w.cells[id.0 as int].state == ActorState::Running
            &&& w.boxes == deliver(
                v.boxes,
                g,
                Envelope::System(SystemMessage::Supervision(crate::message::SupervisionEvent::ChildFailure { child_id: id, error: e })),
            )
        }),
{
    let sends = failure_sends(SupervisionStrategy::Escalate, e, id, Some(g));
    let ev = Envelope::System(SystemMessage::Supervision(crate::message::SupervisionEvent::ChildFailure { child_id: id, error: e }));
    assert(sends.drop_last() =~= Seq::<(ActorId, SystemMessage)>::empty());
    assert(post_all(v.boxes, sends.drop_last()) == v.boxes);
    assert(post_all(v.boxes, sends) == deliver(v.boxes, g, ev));
    assert(g.0 != id.0);
}

/// Tells from one sender reach an open mailbox in the order they were sent: two
/// successive tells to `to` append `e1`, then `e2`.
pub proof fn lemma_tells_keep_order<P>(v: SystemView<P>, to: ActorId, e1: Envelope<P>, e2: Envelope<P>)
    requires
        v.has(to),
        v.cells.len() == v.boxes.len(),
        !v.boxes[to.0 as int].closed,
    ensures
        deliver(deliver(v.boxes, to, e1), to, e2)[to.0 as int].queue == v.boxes[to.0 as int].queue.push(e1).push(e2),
{
}

struct Cell {
    path: ActorPath,
    parent: Option<ActorId>,
    children: Vec<(String, ActorId)>,
    state: ActorState,
    strategy: SupervisionStrategy,
    failures: FailureRecord,
    busy: bool,
    in_flight: Option<u64>,
}

/// No two child entries share a name.
pub open spec fn distinct_names(s: Seq<(Seq<char>, ActorId)>) -> bool {
    forall|a: int, b: int| 0 <= a < b < s.len() ==> s[a].0 != s[b].0
}

/// When no entry is named `name`, the search for it finds nothing.
pub proof fn lemma_named_index_absent(s: Seq<(Seq<char>, ActorId)>, name: Seq<char>)
    requires
        named_index(s, name) == -1,
    ensures
        forall|k: int| 0 <= k < s.len() ==> (#[trigger] s[k]).0 != name,
    decreases s.len(),
{
    if s.len() > 0 {
        lemma_named_index_absent(s.drop_last(), name);
        assert forall|k: int| 0 <= k < s.len() implies (#[trigger] s[k]).0 != name by {
            if k < s.len() - 1 {
                assert(s.drop_last()[k] == s[k]);
            }
        }
    }
}

/// Recording a child keeps the names distinct.
pub proof fn lemma_upsert_distinct(s: Seq<(Seq<char>, ActorId)>, name: Seq<char>, id: ActorId)
    requires
        distinct_names(s),
    ensures
        distinct_names(upsert_child(s, name, id)),
{
    lemma_named_index_range(s, name);
    if named_index(s, name) == -1 {
        lemma_named_index_absent(s, name);
    }
}

/// The search for a name finds an entry of that name, or -1.
pub proof fn lemma_named_index_range(s: Seq<(Seq<char>, ActorId)>, name: Seq<char>)
    ensures
        -1 <= named_index(s, name) < s.len(),
        named_index(s, name) >= 0 ==> s[named_index(s, name)].0 == name,
    decreases s.len(),
{
    if s.len() > 0 {
        lemma_named_index_range(s.drop_last(), name);
        if named_index(s.drop_last(), name) >= 0 {
            assert(s.drop_last()[named_index(s.drop_last(), name)] == s[named_index(s.drop_last(), name)]);
        }
    }
}

/// Forgetting children keeps only entries that were there.
pub proof fn lemma_without_child_within(s: Seq<(Seq<char>, ActorId)>, gone: ActorId, x: (Seq<char>, ActorId))
    requires
        without_child(s, gone).contains(x),
    ensures
        s.contains(x),
    decreases s.len(),
{
    reveal(Seq::filter);
    if s.len() > 0 {
        let rest = s.drop_last();
        let sub = without_child(rest, gone);
        assert(without_child(s, gone) == (if s.last().1 != gone { sub.push(s.last()) } else { sub }));
        if x != s.last() {
            if s.last().1 != gone {
                let k = choose|k: int| 0 <= k < sub.push(s.last()).len() && sub.push(s.last())[k] == x;
                assert(sub[k] == x);
            }
            lemma_without_child_within(rest, gone, x);
            let j = choose|j: int| 0 <= j < rest.len() && rest[j] == x;
            assert(s[j] == x);
        } else {
            assert(s[s.len() - 1] == x);
        }
    }
}

/// Forgetting children keeps the names distinct.
pub proof fn lemma_without_child_distinct(s: Seq<(Seq<char>, ActorId)>, gone: ActorId)
    requires
        distinct_names(s),
    ensures
        distinct_names(without_child(s, gone)),
    decreases s.len(),
{
    reveal(Seq::filter);
    if s.len() > 0 {
        let rest = s.drop_last();
        assert(distinct_names(rest));
        lemma_without_child_distinct(rest, gone);
        let sub = without_child(rest, gone);
        assert(without_child(s, gone) == (if s.last().1 != gone { sub.push(s.last()) } else { sub }));
        if s.last().1 != gone {
            assert forall|a: int, b: int| 0 <= a < b < sub.push(s.last()).len() implies sub.push(s.last())[a].0 != sub.push(
                s.last(),
            )[b].0 by {
                if b == sub.len() {
                    assert(sub.contains(sub[a]));
                    lemma_without_child_within(rest, gone, sub[a]);
                    let k = choose|k: int| 0 <= k < rest.len() && rest[k] == sub[a];
                    assert(s[k] == rest[k]);
                }
            }
        }
    }
}

/// Changing one cell but not its path keeps every path well formed.
proof fn lemma_paths_kept(before: Seq<Cell>, after: Seq<Cell>, i: int)
    requires
        0 <= i < before.len(),
        after.len() == before.len(),
        after[i].path == before[i].path,
        forall|j: int| 0 <= j < after.len() && j != i ==> after[j] == before[j],
        forall|j: int| 0 <= j < before.len() ==> #[trigger] before[j].path.wf(),
    ensures
        forall|j: int| 0 <= j < after.len() ==> #[trigger] after[j].path.wf(),
{
    assert forall|j: int| 0 <= j < after.len() implies #[trigger] after[j].path.wf() by {
        assert(after[j].path == before[j].path);
    }
}

pub open spec fn child_view(ch: (String, ActorId)) -> (Seq<char>, ActorId) {
    (ch.0@, ch.1)
}

impl View for Cell {
    type V = CellView;

    closed spec fn view(&self) -> CellView {
        CellView {
            path: self.path@,
            parent: self.parent,
            children: self.children@.map_values(|ch: (String, ActorId)| child_view(ch)),
            state: self.state,
            strategy: self.strategy,
            failures: self.failures,
            busy: self.busy,
            in_flight: self.in_flight,
        }
    }
}

/// The process-wide state of a named actor system: cells and mailboxes by actor id,
/// response slots, pending timers, the path registry and the shutdown flag.
pub struct ActorSystem<P> {
    name: String,
    cells: Vec<Cell>,
    mailboxes: Vec<Mailbox<P>>,
    replies: Vec<ReplySlot<P>>,
    timers: Vec<Timer<P>>,
    registry: Registry,
    shut_down: bool,
    config: ActorSystemConfig,
}

impl<P> View for ActorSystem<P> {
    type V = SystemView<P>;

    closed spec fn view(&self) -> SystemView<P> {
        SystemView {
            cells: self.cells@.map_values(|c: Cell| c@),
            boxes: self.mailboxes@.map_values(|m: Mailbox<P>| m@),
            replies: self.replies@,
            timers: self.timers@,
            registry: self.registry@,
            shut_down: self.shut_down,
            name: self.name@,
        }
    }
}

impl<P> ActorSystem<P> {
    /// Cells and mailboxes correspond one to one, the root exists, every registered
    /// identity names a cell, every path's text matches its segments, and a closed
    /// mailbox is empty.
    pub closed spec fn wf(&self) -> bool {
        &&& self.cells@.len() == self.mailboxes@.len()
        &&& 1 <= self.cells@.len() < u64::MAX
        &&& forall|k: Seq<Seq<char>>| #[trigger] self.registry@.contains_key(k) ==> (self.registry@[k] as int) < self.cells@.len()
        &&& forall|i: int| 0 <= i < self.cells@.len() ==> #[trigger] self.cells@[i].path.wf()
        &&& forall|i: int| 0 <= i < self@.cells.len() ==> distinct_names((#[trigger] self@.cells[i]).children)
        &&& forall|i: int| 0 <= i < self.mailboxes@.len() ==> #[trigger] self.mailboxes@[i].wf()
    }


    /// A new system named `name`, with its root actor at `/name` running, one open
    /// mailbox (the root's), and an empty registry.
    pub fn new(name: &str, config: ActorSystemConfig) -> (r: Self)
        ensures
            r.wf(),
            r@.cells.len() == 1,
            r@.cells[0].path == seq![name@],
            r@.cells[0].parent is None,
            r@.cells[0].children.len() == 0,
            r@.cells[0].state == ActorState::Running,
            r@.cells[0].strategy == SupervisionStrategy::Stop,
            r@.boxes.len() == 1,
            r@.boxes[0].queue.len() == 0,
            !r@.boxes[0].closed,
            r@.replies.len() == 0,
            r@.timers.len() == 0,
            r@.registry == crate::registry::no_entries(),
            !r@.shut_down,
            r@.name == name@,
            r.spec_config() == config,
    {
        let path = ActorPath::root(name);
        let registry = Registry::new();
        let root = Cell {
            path,
            parent: None,
            children: Vec::new(),
            state: ActorState::Running,
            strategy: SupervisionStrategy::Stop,
            failures: FailureRecord::new(),
            busy: false,
            in_flight: None,
        };
        let mut cells: Vec<Cell> = Vec::new();
        cells.push(root);
        let mut mailboxes: Vec<Mailbox<P>> = Vec::new();
        mailboxes.push(Mailbox::new());
        let r = ActorSystem {
            name: name.to_string(),
            cells,
            mailboxes,
            replies: Vec::new(),
            timers: Vec::new(),
            registry,
            shut_down: false,
            config,
        };
        proof {
            assert(r.cells@[0]@.children =~= Seq::<(Seq<char>, ActorId)>::empty());
        }
        r
    }

    /// Offers `e` to the mailbox of `to`.
    fn offer(&mut self, to: ActorId, e: Envelope<P>) -> (r: Result<(), SendError>)
        requires
            old(self).wf(),
        ensures
            final(self).wf(),
            final(self)@ == old(self)@.with_boxes(deliver(old(self)@.boxes, to, e)),
            r == send_outcome(old(self)@.boxes, to),
            final(self).cells@ == old(self).cells@,
    {
        if to.0 < self.mailboxes.len() as u64 {
            let i = to.0 as usize;
            proof {
                assert(self.mailboxes@[i as int].wf());
            }
            let r = self.mailboxes[i].enqueue(e);
            proof {
                assert(self@.boxes =~= deliver(old(self)@.boxes, to, e));
                assert(self@.cells =~= old(self)@.cells);
                assert forall|j: int| 0 <= j < self.mailboxes@.len() implies #[trigger] self.mailboxes@[j].wf() by {
                    if j != i as int {
                        assert(self.mailboxes@[j] == old(self).mailboxes@[j]);
                    }
                }
            }
            r
        } else {
            Err(SendError::Closed)
        }
    }

    /// Tell: enqueues `msg` for `to` without a response slot.
    pub fn do_send(&mut self, to: ActorId, msg: P, now: u64) -> (r: Result<(), SendError>)
        requires
            old(self).wf(),
        ensures
            final(self).wf(),
            final(self)@ == old(self)@.with_boxes(
                deliver(old(self)@.boxes, to, Envelope::User { payload: msg, reply: None, created_at: now }),
            ),
            r == send_outcome(old(self)@.boxes, to),
    {
        self.offer(to, Envelope::User { payload: msg, reply: None, created_at: now })
    }

    /// Ask: allocates a pending response slot and enqueues `msg` with it; returns the
    /// slot's number, to be polled with `poll_reply`.
    pub fn send(&mut self, to: ActorId, msg: P, now: u64) -> (r: Result<u64, SendError>)
        requires
            old(self).wf(),
        ensures
            final(self).wf(),
            final(self)@ == asked(old(self)@, to, msg, now),
            r == ask_outcome(old(self)@, to),
    {
        if to.0 < self.mailboxes.len() as u64 && !self.mailboxes[to.0 as usize].is_closed() {
            let ticket = self.replies.len() as u64;
            self.replies.push(ReplySlot::Pending);
            let _sent = self.offer(to, Envelope::User { payload: msg, reply: Some(ticket), created_at: now });
            Ok(ticket)
        } else {
            Err(SendError::Closed)
        }
    }

    /// Enqueues a system message for `to`.
    pub fn send_system_message(&mut self, to: ActorId, msg: SystemMessage) -> (r: Result<(), SendError>)
        requires
            old(self).wf(),
        ensures
            final(self).wf(),
            final(self)@ == old(self)@.with_boxes(deliver(old(self)@.boxes, to, Envelope::System(msg))),
            r == send_outcome(old(self)@.boxes, to),
    {
        self.offer(to, Envelope::System(msg))
    }

    /// Offers each system message of `sends` in turn; closed or unknown targets drop theirs.
    fn post_each(&mut self, sends: Vec<(ActorId, SystemMessage)>)
        requires
            old(self).wf(),
        ensures
            final(self).wf(),
            final(self)@ == old(self)@.with_boxes(post_all(old(self)@.boxes, sends@)),
            final(self).cells@ == old(self).cells@,
    {
        let ghost all = sends@;
        let mut rest = sends;
        let ghost mut k: int = 0;
        while rest.len() > 0
            invariant
                self.wf(),
                0 <= k <= all.len(),
                rest@ == all.skip(k),
                self@ == old(self)@.with_boxes(post_all(old(self)@.boxes, all.take(k))),
                self.cells@ == old(self).cells@,
            decreases rest.len(),
        {
            let (to, msg) = rest.remove(0);
            proof {
                assert(all.take(k + 1).drop_last() =~= all.take(k));
                assert(all[k] == (to, msg));
            }
            let _sent = self.offer(to, Envelope::System(msg));
            proof {
                k = k + 1;
                assert(rest@ =~= all.skip(k));
            }
        }
        proof {
            assert(all.take(k) =~= all);
        }
    }

    /// Cancels the response slot `r`, if it names one.
    fn cancel_slot(&mut self, r: Option<u64>)
        requires
            old(self).wf(),
        ensures
            final(self).wf(),
            final(self)@ == old(self)@.with_replies(cancel(old(self)@.replies, r)),
            final(self).cells@ == old(self).cells@,
            final(self).mailboxes@ == old(self).mailboxes@,
    {
        if let Some(k) = r {
            if k < self.replies.len() as u64 {
                self.replies.set(k as usize, ReplySlot::Canceled);
            }
        }
    }

    /// Cancels the response slot of each envelope of `es`.
    fn cancel_each(&mut self, es: &Vec<Envelope<P>>)
        requires
            old(self).wf(),
        ensures
            final(self).wf(),
            final(self)@ == old(self)@.with_replies(cancel_all(old(self)@.replies, es@)),
            final(self).cells@ == old(self).cells@,
            final(self).mailboxes@ == old(self).mailboxes@,
    {
        let mut k: usize = 0;
        while k < es.len()
            invariant
                self.wf(),
                k <= es@.len(),
                self@ == old(self)@.with_replies(cancel_all(old(self)@.replies, es@.take(k as int))),
                self.cells@ == old(self).cells@,
                self.mailboxes@ == old(self).mailboxes@,
            decreases es.len() - k,
        {
            let r = match &es[k] {
                Envelope::User { reply, .. } => *reply,
                _ => None,
            };
            proof {
                assert(es@.take(k + 1).drop_last() =~= es@.take(k as int));
                assert(reply_of(es@[k as int]) == r);
            }
            self.cancel_slot(r);
            k = k + 1;
        }
        proof {
            assert(es@.take(k as int) =~= es@);
        }
    }

    /// The `Stop` sends to each child of cell `i`, oldest first.
    fn children_stops(&self, i: usize) -> (r: Vec<(ActorId, SystemMessage)>)
        requires
            self.wf(),
            i < self@.cells.len(),
        ensures
            r@ == children_stop_sends(self@.cells[i as int]),
    {
        let mut sends: Vec<(ActorId, SystemMessage)> = Vec::new();
        let n = self.cells[i].children.len();
        let mut k: usize = 0;
        while k < n
            invariant
                n == self.cells@[i as int].children@.len(),
                i < self.cells@.len(),
                k <= n,
                sends@ == children_stop_sends(self@.cells[i as int]).take(k as int),
            decreases n - k,
        {
            sends.push((self.cells[i].children[k].1, SystemMessage::Stop));
            k = k + 1;
            proof {
                assert(sends@ =~= children_stop_sends(self@.cells[i as int]).take(k as int));
            }
        }
        proof {
            assert(sends@ =~= children_stop_sends(self@.cells[i as int]));
        }
        sends
    }

    /// Stops cell `i`: cancels its pending asks, closes its mailbox, tells its children
    /// to stop and notifies its parent.
    fn stop_cell(&mut self, i: usize)
        requires
            old(self).wf(),
            i < old(self)@.cells.len(),
        ensures
            final(self).wf(),
            final(self)@ == stopped_view(old(self)@, i as int),
    {
        let ghost v = self@;
        let mut sends = self.children_stops(i);
        if let Some(p) = self.cells[i].parent {
            sends.push((p, SystemMessage::ChildTerminated(ActorId(i as u64))));
        }
        proof {
            assert(sends@ =~= stop_sends(v.cells[i as int], ActorId(i as u64)));
        }
        let in_flight = self.cells[i].in_flight;
        self.cancel_slot(in_flight);
        proof {
            assert(self.mailboxes@[i as int].wf());
        }
        let drained = self.mailboxes[i].close();
        self.cancel_each(&drained);
        self.cells[i].children = Vec::new();
        self.cells[i].state = ActorState::Stopping;
        self.cells[i].busy = false;
        self.cells[i].in_flight = None;
        proof {
            assert(self.cells@[i as int].path == old(self).cells@[i as int].path);
            assert forall|j: int| 0 <= j < self.mailboxes@.len() implies #[trigger] self.mailboxes@[j].wf() by {
                if j != i as int {
                    assert(self.mailboxes@[j] == old(self).mailboxes@[j]);
                }
            }
            lemma_paths_kept(old(self).cells@, self.cells@, i as int);
            assert(self.cells@[i as int]@.children =~= Seq::<(Seq<char>, ActorId)>::empty());
            assert(self.mailboxes@[i as int]@.queue =~= Seq::<Envelope<P>>::empty());
            assert(self.mailboxes@[i as int]@ == MailboxView { queue: Seq::<Envelope<P>>::empty(), closed: true });
            assert(self@.cells =~= stopped_view(v, i as int).cells);
            assert(self@.boxes =~= v.boxes.update(i as int, MailboxView { queue: Seq::empty(), closed: true }));
        }
        self.post_each(sends);
    }

    /// Stops `id`, as its context's `stop` does, without waiting for its children: they
    /// are told to stop, its parent is notified, its pending asks are canceled, its
    /// mailbox closes and it is `Stopping` until its loop runs the stop hooks. An
    /// unknown actor, or one whose mailbox is already closed, is left as it is.
    pub fn stop(&mut self, id: ActorId)
        requires
            old(self).wf(),
        ensures
            final(self).wf(),
            final(self)@ == (if old(self)@.has(id) && !old(self)@.boxes[id.0 as int].closed {
                stopped_view(old(self)@, id.0 as int)
            } else {
                old(self)@
            }),
    {
        if id.0 < self.cells.len() as u64 && !self.mailboxes[id.0 as usize].is_closed() {
            self.stop_cell(id.0 as usize);
        }
    }

    /// Creates a child named `name` under `parent`: its path is the parent's with `name`
    /// appended, it is registered under that path (replacing an earlier entry) and
    /// recorded among the parent's children. Refused with `Closed` after shutdown, under
    /// an unknown or stopped parent, or when no identity is left.
    pub fn spawn(&mut self, parent: ActorId, name: &str) -> (r: Result<ActorRef, SendError>)
        requires
            old(self).wf(),
        ensures
            final(self).wf(),
            !spawn_allowed(old(self)@, parent) ==> r == Err::<ActorRef, SendError>(SendError::Closed)
                && final(self)@ == old(self)@,
            spawn_allowed(old(self)@, parent) ==> r is Ok && final(self)@ == spawned(old(self)@, parent, name@),
            r matches Ok(a) ==> a.target() == ActorId(old(self)@.cells.len() as u64)
                && a.path_view() == old(self)@.cells[parent.0 as int].path.push(name@),
    {
        if self.shut_down || parent.0 >= self.cells.len() as u64 || self.mailboxes[parent.0 as usize].is_closed()
            || self.cells.len() as u64 >= u64::MAX - 1 {
            return Err(SendError::Closed);
        }
        let p = parent.0 as usize;
        let id = ActorId(self.cells.len() as u64);
        let ghost v = self@;
        proof {
            assert(self.cells@[p as int].path.wf());
        }
        let path = self.cells[p].path.child(name);
        let handle = ActorRef { id, path: path.copy() };
        self.registry.register(&path, id.0);
        proof {
            path.lemma_text();
        }
        let key = name.to_string();
        proof {
            assert(key@ == name@);
        }
        let n = self.cells[p].children.len();
        let mut found: usize = n;
        let mut k: usize = 0;
        while k < n
            invariant
                n == self.cells@[p as int].children@.len(),
                p < self.cells@.len(),
                self@.cells == v.cells,
                k <= n,
                found <= n,
                found == n <==> named_index(v.cells[p as int].children.take(k as int), name@) == -1,
                found < n ==> found as int == named_index(v.cells[p as int].children.take(k as int), name@),
                key@ == name@,
            decreases n - k,
        {
            proof {
                assert(v.cells[p as int].children.take(k + 1).drop_last() =~= v.cells[p as int].children.take(k as int));
                assert(v.cells[p as int].children[k as int] == child_view(self.cells@[p as int].children@[k as int]));
                assert(v.cells[p as int].children.take(k + 1).last() == v.cells[p as int].children[k as int]);
            }
            if found == n && self.cells[p].children[k].0 == key {
                found = k;
            }
            k = k + 1;
        }
        proof {
            assert(v.cells[p as int].children.take(n as int) =~= v.cells[p as int].children);
        }
        if found < n {
            self.cells[p].children.set(found, (key, id));
        } else {
            self.cells[p].children.push((key, id));
        }
        let cell = Cell {
            path,
            parent: Some(parent),
            children: Vec::new(),
            state: ActorState::Initializing,
            strategy: SupervisionStrategy::Stop,
            failures: FailureRecord::new(),
            busy: false,
            in_flight: None,
        };
        self.cells.push(cell);
        self.mailboxes.push(Mailbox::new());
        proof {
            let w = spawned(v, parent, name@);
            assert(self.cells@.last()@.children =~= Seq::<(Seq<char>, ActorId)>::empty());
            assert(self.cells@[p as int]@.children =~= upsert_child(v.cells[p as int].children, name@, id));
            lemma_upsert_distinct(v.cells[p as int].children, name@, id);
            assert(distinct_names(self.cells@.last()@.children));
            assert(self@.cells =~= w.cells);
            assert(self.mailboxes@.last()@.queue =~= Seq::<Envelope<P>>::empty());
            assert(self@.boxes =~= w.boxes);
            assert forall|j: int| 0 <= j < self.mailboxes@.len() implies #[trigger] self.mailboxes@[j].wf() by {
                if j < v.boxes.len() {
                    assert(self.mailboxes@[j] == old(self).mailboxes@[j]);
                }
            }
            assert forall|j: int| 0 <= j < self.cells@.len() implies #[trigger] self.cells@[j].path.wf() by {
                if j < v.cells.len() {
                    assert(self.cells@[j].path == old(self).cells@[j].path);
                }
            }
        }
        Ok(handle)
    }

    /// Creates a top-level actor: a child of the root.
    pub fn create_actor(&mut self, name: &str) -> (r: Result<ActorRef, SendError>)
        requires
            old(self).wf(),
        ensures
            final(self).wf(),
            !spawn_allowed(old(self)@, ActorId(0)) ==> r == Err::<ActorRef, SendError>(SendError::Closed)
                && final(self)@ == old(self)@,
            spawn_allowed(old(self)@, ActorId(0)) ==> r is Ok && final(self)@ == spawned(old(self)@, ActorId(0), name@),
            r matches Ok(a) ==> a.target() == ActorId(old(self)@.cells.len() as u64)
                && a.path_view() == old(self)@.cells[0].path.push(name@),
    {
        self.spawn(ActorId(0), name)
    }

    /// Marks `id` running once its `started` hook has run, after creation or after a
    /// restart. Returns whether the actor was waiting to start.
    pub fn started(&mut self, id: ActorId) -> (r: bool)
        requires
            old(self).wf(),
        ensures
            final(self).wf(),
            r == (old(self)@.has(id) && (old(self)@.cells[id.0 as int].state == ActorState::Initializing
                || old(self)@.cells[id.0 as int].state == ActorState::Restarting)),
            final(self)@ == (if r {
                old(self)@.with_cell(
                    id.0 as int,
                    CellView { state: ActorState::Running, ..old(self)@.cells[id.0 as int] },
                )
            } else {
                old(self)@
            }),
    {
        if id.0 >= self.cells.len() as u64 {
            return false;
        }
        let i = id.0 as usize;
        if self.cells[i].state == ActorState::Initializing || self.cells[i].state == ActorState::Restarting {
            self.cells[i].state = ActorState::Running;
            proof {
                assert(self@.cells =~= old(self)@.cells.update(
                    i as int,
                    CellView { state: ActorState::Running, ..old(self)@.cells[i as int] },
                ));
                lemma_paths_kept(old(self).cells@, self.cells@, i as int);
            }
            true
        } else {
            false
        }
    }

    /// Declares the strategy that `id` applies to the failures of its children.
    pub fn set_strategy(&mut self, id: ActorId, strategy: SupervisionStrategy) -> (r: bool)
        requires
            old(self).wf(),
        ensures
            final(self).wf(),
            r == old(self)@.has(id),
            final(self)@ == (if r {
                old(self)@.with_cell(id.0 as int, CellView { strategy, ..old(self)@.cells[id.0 as int] })
            } else {
                old(self)@
            }),
    {
        if id.0 >= self.cells.len() as u64 {
            return false;
        }
        let i = id.0 as usize;
        self.cells[i].strategy = strategy;
        proof {
            assert(self@.cells =~= old(self)@.cells.update(i as int, CellView { strategy, ..old(self)@.cells[i as int] }));
            lemma_paths_kept(old(self).cells@, self.cells@, i as int);
        }
        true
    }

    /// The lifecycle state of `id`.
    pub fn state_of(&self, id: ActorId) -> (r: Option<ActorState>)
        requires
            self.wf(),
        ensures
            r == (if self@.has(id) { Some(self@.cells[id.0 as int].state) } else { None::<ActorState> }),
    {
        if id.0 < self.cells.len() as u64 { Some(self.cells[id.0 as usize].state) } else { None }
    }

    /// The failures counted for `id` in its current window.
    pub fn failure_count(&self, id: ActorId) -> (r: Option<u32>)
        requires
            self.wf(),
        ensures
            r == (if self@.has(id) { Some(self@.cells[id.0 as int].failures.count) } else { None::<u32> }),
    {
        if id.0 < self.cells.len() as u64 { Some(self.cells[id.0 as usize].failures.count) } else { None }
    }

    /// The parent of `id`; `None` for the root and for unknown actors.
    pub fn parent_of(&self, id: ActorId) -> (r: Option<ActorId>)
        requires
            self.wf(),
        ensures
            r == (if self@.has(id) { self@.cells[id.0 as int].parent } else { None::<ActorId> }),
    {
        if id.0 < self.cells.len() as u64 { self.cells[id.0 as usize].parent } else { None }
    }

    /// The number of children recorded for `id`.
    pub fn child_count(&self, id: ActorId) -> (r: usize)
        requires
            self.wf(),
        ensures
            r == (if self@.has(id) { self@.cells[id.0 as int].children.len() } else { 0 }),
    {
        if id.0 < self.cells.len() as u64 { self.cells[id.0 as usize].children.len() } else { 0 }
    }

    /// The number of envelopes waiting in the mailbox of `id`.
    pub fn pending(&self, id: ActorId) -> (r: usize)
        requires
            self.wf(),
        ensures
            r == (if self@.has(id) { self@.boxes[id.0 as int].queue.len() } else { 0 }),
    {
        if id.0 < self.mailboxes.len() as u64 { self.mailboxes[id.0 as usize].len() } else { 0 }
    }

    /// A reference to `id` (the context's `address`).
    pub fn address(&self, id: ActorId) -> (r: Option<ActorRef>)
        requires
            self.wf(),
        ensures
            r is Some <==> self@.has(id),
            r matches Some(a) ==> a.target() == id && a.path_view() == self@.cells[id.0 as int].path,
    {
        if id.0 < self.cells.len() as u64 {
            Some(ActorRef { id, path: self.cells[id.0 as usize].path.copy() })
        } else {
            None
        }
    }

    /// A reference to the root actor.
    pub fn root(&self) -> (r: ActorRef)
        requires
            self.wf(),
        ensures
            r.target() == ActorId(0),
            r.path_view() == self@.cells[0].path,
    {
        ActorRef { id: ActorId(0), path: self.cells[0].path.copy() }
    }

    /// The actor registered under `path`.
    pub fn actor_by_path(&self, path: &ActorPath) -> (r: Option<ActorId>)
        ensures
            r == (if self@.registry.contains_key(path@) {
                Some(ActorId(self@.registry[path@]))
            } else {
                None::<ActorId>
            }),
    {
        match self.registry.lookup(path) {
            Some(k) => Some(ActorId(k)),
            None => None,
        }
    }

    /// The system's name.
    pub fn name(&self) -> (r: &str)
        ensures
            r@ == self@.name,
    {
        self.name.as_str()
    }

    pub closed spec fn spec_config(&self) -> ActorSystemConfig {
        self.config
    }

    pub fn config(&self) -> (r: ActorSystemConfig)
        ensures
            r == self.spec_config(),
    {
        self.config
    }

    pub fn is_shut_down(&self) -> (r: bool)
        ensures
            r == self@.shut_down,
    {
        self.shut_down
    }

    /// Marks cell `i` stopped, once its stop hooks have run.
    fn finish(&mut self, i: usize)
        requires
            old(self).wf(),
            i < old(self)@.cells.len(),
        ensures
            final(self).wf(),
            final(self)@ == finished(old(self)@, i as int),
    {
        self.cells[i].state = ActorState::Stopped;
        proof {
            assert(self@.cells =~= finished(old(self)@, i as int).cells);
            lemma_paths_kept(old(self).cells@, self.cells@, i as int);
        }
    }

    /// Restarts cell `i` with failure record `rec`: its children are told to stop and
    /// forgotten, and it waits to be started again.
    fn restart_cell(&mut self, i: usize, rec: FailureRecord)
        requires
            old(self).wf(),
            i < old(self)@.cells.len(),
        ensures
            final(self).wf(),
            final(self)@ == restarted_view(old(self)@, i as int, rec),
    {
        let ghost v = self@;
        let sends = self.children_stops(i);
        self.cells[i].children = Vec::new();
        self.cells[i].state = ActorState::Restarting;
        self.cells[i].failures = rec;
        proof {
            assert(self.cells@[i as int]@.children =~= Seq::<(Seq<char>, ActorId)>::empty());
            assert(self@.cells =~= restarted_view(v, i as int, rec).cells);
            lemma_paths_kept(old(self).cells@, self.cells@, i as int);
        }
        self.post_each(sends);
    }

    /// Drops the entries for `gone` from the children of cell `i`.
    fn forget_child(&mut self, i: usize, gone: ActorId)
        requires
            old(self).wf(),
            i < old(self)@.cells.len(),
        ensures
            final(self).wf(),
            final(self)@ == old(self)@.with_cell(
                i as int,
                CellView { children: without_child(old(self)@.cells[i as int].children, gone), ..old(self)@.cells[i as int] },
            ),
    {
        let ghost v = self@;
        let ghost orig = v.cells[i as int].children;
        let mut rest: Vec<(String, ActorId)> = Vec::new();
        std::mem::swap(&mut rest, &mut self.cells[i].children);
        proof {
            assert(rest@.map_values(|ch: (String, ActorId)| child_view(ch)) == orig);
        }
        let mut kept: Vec<(String, ActorId)> = Vec::new();
        let ghost mut k: int = 0;
        while rest.len() > 0
            invariant
                0 <= k <= orig.len(),
                rest@.len() == orig.len() - k,
                forall|j: int| 0 <= j < rest@.len() ==> child_view(#[trigger] rest@[j]) == orig[k + j],
                kept@.map_values(|ch: (String, ActorId)| child_view(ch)) == without_child(orig.take(k), gone),
            decreases rest.len(),
        {
            let ghost rest_before = rest@;
            let entry = rest.remove(0);
            proof {
                assert(child_view(entry) == orig[k]);
                assert(orig.take(k + 1).drop_last() =~= orig.take(k));
                assert(orig.take(k + 1).last() == orig[k]);
                reveal(Seq::filter);
                assert(without_child(orig.take(k + 1), gone) == (if orig[k].1 != gone {
                    without_child(orig.take(k), gone).push(orig[k])
                } else {
                    without_child(orig.take(k), gone)
                }));
            }
            let ghost before = kept@;
            if entry.1 != gone {
                kept.push(entry);
                proof {
                    assert(kept@.map_values(|ch: (String, ActorId)| child_view(ch)) =~= before.map_values(
                        |ch: (String, ActorId)| child_view(ch),
                    ).push(orig[k]));
                }
            }
            proof {
                k = k + 1;
                assert forall|j: int| 0 <= j < rest@.len() implies child_view(#[trigger] rest@[j]) == orig[k + j] by {
                    assert(rest@[j] == rest_before[j + 1]);
                }
            }
        }
        proof {
            assert(orig.take(k) =~= orig);
        }
        self.cells[i].children = kept;
        proof {
            assert(self@.cells =~= v.cells.update(
                i as int,
                CellView { children: without_child(orig, gone), ..v.cells[i as int] },
            ));
            lemma_without_child_distinct(orig, gone);
            lemma_paths_kept(old(self).cells@, self.cells@, i as int);
        }
    }

    /// One step of the mailbox loop of `id` at time `now`. While a handler of `id` runs
    /// nothing is handed out; otherwise the oldest envelope is taken: a message or task
    /// marks the actor busy until `complete`, a `Stop` stops it, a `Restart` restarts it
    /// within its retry budget and stops it beyond, and `ChildTerminated` forgets the child.
    pub fn take_next(&mut self, id: ActorId, now: u64) -> (r: Option<Delivery<P>>)
        requires
            old(self).wf(),
        ensures
            final(self).wf(),
            (final(self)@, r) == take_next_spec(old(self)@, id, now),
    {
        if id.0 >= self.cells.len() as u64 {
            return None;
        }
        let i = id.0 as usize;
        if self.cells[i].busy {
            return None;
        }
        if self.cells[i].state == ActorState::Stopping {
            self.finish(i);
            return Some(Delivery::Stopped);
        }
        if !(self.cells[i].state == ActorState::Running || self.cells[i].state == ActorState::Failed) {
            return None;
        }
        if self.mailboxes[i].len() == 0 {
            return None;
        }
        let ghost v = self@;
        proof {
            assert(self.mailboxes@[i as int].wf());
        }
        let next = self.mailboxes[i].dequeue();
        proof {
            assert(self@.boxes =~= popped(v, i as int).boxes);
            assert(self@ == popped(v, i as int));
            assert forall|j: int| 0 <= j < self.mailboxes@.len() implies #[trigger] self.mailboxes@[j].wf() by {
                if j != i as int {
                    assert(self.mailboxes@[j] == old(self).mailboxes@[j]);
                }
            }
        }
        let e = match next {
            Some(e) => e,
            None => {
                return None;
            },
        };
        match e {
            Envelope::User { payload, reply, created_at } => {
                self.cells[i].busy = true;
                self.cells[i].in_flight = reply;
                proof {
                    assert(self@.cells =~= v.cells.update(
                        i as int,
                        CellView { busy: true, in_flight: reply, ..v.cells[i as int] },
                    ));
                    lemma_paths_kept(old(self).cells@, self.cells@, i as int);
                }
                proof {
                    assert(self@ == take_next_spec(v, id, now).0);
                }
                Some(Delivery::Message(payload))
            },
            Envelope::Scheduled { task, created_at } => {
                self.cells[i].busy = true;
                self.cells[i].in_flight = None;
                proof {
                    assert(self@.cells =~= v.cells.update(
                        i as int,
                        CellView { busy: true, in_flight: None, ..v.cells[i as int] },
                    ));
                    lemma_paths_kept(old(self).cells@, self.cells@, i as int);
                }
                proof {
                    assert(self@ == take_next_spec(v, id, now).0);
                }
                Some(Delivery::Task(task))
            },
            Envelope::System(msg) => match msg {
                SystemMessage::Stop => {
                    self.stop_cell(i);
                    self.finish(i);
                    proof {
                        assert(self@ == take_next_spec(v, id, now).0);
                    }
                    Some(Delivery::Stopped)
                },
                SystemMessage::Restart { max_retries, reset_window } => {
                    let (allowed, rec) = register_failure(self.cells[i].failures, max_retries, reset_window, now);
                    if allowed {
                        self.restart_cell(i, rec);
                        proof {
                            assert(restarted_view(popped(v, i as int), i as int, rec).cells =~= self@.cells);
                        }
                        proof {
                            assert(self@ == take_next_spec(v, id, now).0);
                        }
                        Some(Delivery::Restart)
                    } else {
                        self.cells[i].failures = rec;
                        proof {
                            assert(self@.cells =~= v.cells.update(
                                i as int,
                                CellView { failures: rec, ..v.cells[i as int] },
                            ));
                            lemma_paths_kept(old(self).cells@, self.cells@, i as int);
                        }
                        self.stop_cell(i);
                        self.finish(i);
                        proof {
                            assert(self@ == take_next_spec(v, id, now).0);
                        }
                        Some(Delivery::Stopped)
                    }
                },
                SystemMessage::ChildTerminated(gone) => {
                    self.forget_child(i, gone);
                    proof {
                        assert(self@ == take_next_spec(v, id, now).0);
                    }
                    Some(Delivery::System(SystemMessage::ChildTerminated(gone)))
                },
                SystemMessage::Supervision(ev) => Some(Delivery::System(SystemMessage::Supervision(ev))),
            },
        }
    }

    /// Ends the handler invocation running in `id` with `outcome`. A result fills the
    /// response slot of the message. A failure cancels that slot, marks the actor
    /// `Failed` and applies its supervisor's strategy (see `handle_failure`): `Resume`
    /// and `Escalate` put it back to `Running` at once, `Stop` and `Restart` arrive as
    /// directives in its mailbox; the root, which has no supervisor, stops. Returns
    /// whether a handler of `id` was running; if none was, nothing changes.
    pub fn complete(&mut self, id: ActorId, outcome: Result<P, ActorError>) -> (r: bool)
        requires
            old(self).wf(),
        ensures
            final(self).wf(),
            final(self)@ == completed(old(self)@, id, outcome),
            r == (old(self)@.has(id) && old(self)@.cells[id.0 as int].busy),
    {
        if id.0 >= self.cells.len() as u64 {
            return false;
        }
        let i = id.0 as usize;
        if !self.cells[i].busy {
            return false;
        }
        let ghost v = self@;
        let in_flight = self.cells[i].in_flight;
        match outcome {
            Ok(resp) => {
                if let Some(t) = in_flight {
                    if t < self.replies.len() as u64 {
                        self.replies.set(t as usize, ReplySlot::Filled(resp));
                    }
                }
                self.cells[i].busy = false;
                self.cells[i].in_flight = None;
                proof {
                    assert(self@.cells =~= v.cells.update(
                        i as int,
                        CellView { busy: false, in_flight: None, ..v.cells[i as int] },
                    ));
                    lemma_paths_kept(old(self).cells@, self.cells@, i as int);
                }
            },
            Err(e) => {
                self.cancel_slot(in_flight);
                self.cells[i].busy = false;
                self.cells[i].in_flight = None;
                self.cells[i].state = ActorState::Failed;
                let ghost failed = v.with_replies(cancel(v.replies, in_flight)).with_cell(
                    i as int,
                    CellView { busy: false, in_flight: None, state: ActorState::Failed, ..v.cells[i as int] },
                );
                proof {
                    assert(self@.cells =~= failed.cells);
                    assert(self@ == failed);
                    lemma_paths_kept(old(self).cells@, self.cells@, i as int);
                }
                let supervisor = match self.cells[i].parent {
                    Some(p) => if p.0 < self.cells.len() as u64 {
                        Some((p, self.cells[p.0 as usize].strategy))
                    } else {
                        None
                    },
                    None => None,
                };
                proof {
                    assert(supervisor == supervisor_of(v, i as int));
                }
                match supervisor {
                    None => {
                        self.stop_cell(i);
                    },
                    Some((p, strategy)) => {
                        let grandparent = self.cells[p.0 as usize].parent;
                        let sends = handle_failure(strategy, e, id, grandparent);
                        self.post_each(sends);
                        let ghost sent = self@;
                        match strategy {
                            SupervisionStrategy::Resume | SupervisionStrategy::Escalate => {
                                self.cells[i].state = ActorState::Running;
                                proof {
                                    assert(self@.cells =~= sent.cells.update(
                                        i as int,
                                        CellView { busy: false, in_flight: None, state: ActorState::Running, ..v.cells[i as int] },
                                    ));
                                    lemma_paths_kept(old(self).cells@, self.cells@, i as int);
                                }
                            },
                            _ => {},
                        }
                    },
                }
            },
        }
        true
    }

    /// Polls the response slot `ticket` of an ask: `None` while pending; the handler's
    /// result once, after which the slot is spent; `Canceled` if the slot was dropped
    /// unfilled, already taken, or never existed.
    pub fn poll_reply(&mut self, ticket: u64) -> (r: Option<Result<P, SendError>>)
        requires
            old(self).wf(),
        ensures
            final(self).wf(),
            (ticket as int) >= old(self)@.replies.len() ==> r == Some(Err::<P, SendError>(SendError::Canceled))
                && final(self)@ == old(self)@,
            (ticket as int) < old(self)@.replies.len() ==> match old(self)@.replies[ticket as int] {
                ReplySlot::Pending => r is None && final(self)@ == old(self)@,
                ReplySlot::Filled(p) => r == Some(Ok::<P, SendError>(p))
                    && final(self)@ == old(self)@.with_replies(old(self)@.replies.update(ticket as int, ReplySlot::Taken)),
                _ => r == Some(Err::<P, SendError>(SendError::Canceled)) && final(self)@ == old(self)@,
            },
    {
        if ticket >= self.replies.len() as u64 {
            return Some(Err(SendError::Canceled));
        }
        let t = ticket as usize;
        match &self.replies[t] {
            ReplySlot::Pending => {
                return None;
            },
            ReplySlot::Filled(_) => {},
            _ => {
                return Some(Err(SendError::Canceled));
            },
        }
        let mut slot = ReplySlot::Taken;
        std::mem::swap(&mut slot, &mut self.replies[t]);
        match slot {
            ReplySlot::Filled(p) => Some(Ok(p)),
            _ => Some(Err(SendError::Canceled)),
        }
    }

    /// Registers a delayed one-shot task for `owner`: at `now + delay` (saturating) it
    /// will be re-injected into `owner`'s mailbox, so that it runs like any other
    /// message. Refused after shutdown.
    pub fn schedule(&mut self, owner: ActorId, delay: u64, task: P, now: u64) -> (r: bool)
        requires
            old(self).wf(),
        ensures
            final(self).wf(),
            r == !old(self)@.shut_down,
            final(self)@ == (if r {
                SystemView {
                    timers: old(self)@.timers.push(Timer { due: due_at(now, delay), target: owner, task }),
                    ..old(self)@
                }
            } else {
                old(self)@
            }),
    {
        if self.shut_down {
            return false;
        }
        self.timers.push(Timer { due: now.saturating_add(delay), target: owner, task });
        true
    }

    /// Fires the timers due at `now`: each becomes a scheduled task in its target's
    /// mailbox (dropped if that mailbox is closed), oldest first; the others stay pending.
    pub fn tick(&mut self, now: u64)
        requires
            old(self).wf(),
        ensures
            final(self).wf(),
            final(self)@ == (SystemView {
                boxes: fire_due(old(self)@.boxes, old(self)@.timers, now),
                timers: not_due(old(self)@.timers, now),
                ..old(self)@
            }),
    {
        let ghost v = self@;
        let ghost orig = self.timers@;
        let mut rest: Vec<Timer<P>> = Vec::new();
        std::mem::swap(&mut rest, &mut self.timers);
        let mut kept: Vec<Timer<P>> = Vec::new();
        let ghost mut k: int = 0;
        while rest.len() > 0
            invariant
                self.wf(),
                0 <= k <= orig.len(),
                rest@ == orig.skip(k),
                kept@ == not_due(orig.take(k), now),
                self@ == (SystemView { boxes: fire_due(v.boxes, orig.take(k), now), timers: Seq::empty(), ..v }),
            decreases rest.len(),
        {
            let t = rest.remove(0);
            proof {
                assert(orig.take(k + 1).drop_last() =~= orig.take(k));
                assert(orig.take(k + 1).last() == orig[k]);
                assert(orig[k] == t);
                reveal(Seq::filter);
                assert(not_due(orig.take(k + 1), now) == (if t.due > now {
                    not_due(orig.take(k), now).push(t)
                } else {
                    not_due(orig.take(k), now)
                }));
            }
            if t.due <= now {
                let Timer { due, target, task } = t;
                let _sent = self.offer(target, Envelope::Scheduled { task, created_at: now });
            } else {
                kept.push(t);
            }
            proof {
                k = k + 1;
                assert(rest@ =~= orig.skip(k));
            }
        }
        proof {
            assert(orig.take(k) =~= orig);
        }
        self.timers = kept;
    }

    /// What the invariant gives callers: one mailbox per cell, a root, every registered
    /// identity naming an actor, closed mailboxes empty, and distinct child names.
    pub proof fn lemma_wf(&self)
        requires
            self.wf(),
        ensures
            self@.cells.len() == self@.boxes.len(),
            1 <= self@.cells.len() < u64::MAX,
            forall|k: Seq<Seq<char>>| #[trigger] self@.registry.contains_key(k) ==> (self@.registry[k] as int) < self@.cells.len(),
            forall|i: int| 0 <= i < self@.boxes.len() && #[trigger] self@.boxes[i].closed ==> self@.boxes[i].queue.len() == 0,
            forall|i: int| 0 <= i < self@.cells.len() ==> distinct_names((#[trigger] self@.cells[i]).children),
    {
        assert forall|i: int| 0 <= i < self@.boxes.len() && #[trigger] self@.boxes[i].closed implies self@.boxes[i].queue.len() == 0 by {
            assert(self.mailboxes@[i].wf());
        }
    }

    /// Shuts the system down: no actor may be spawned any more, pending timers are
    /// dropped, and every actor is stopped, so that every mailbox is closed, every
    /// registry entry names a stopped actor, and every ask still waiting resolves to
    /// `Canceled`.
    pub fn shutdown(&mut self)
        requires
            old(self).wf(),
        ensures
            final(self).wf(),
            final(self)@.shut_down,
            final(self)@.timers.len() == 0,
            final(self)@.cells.len() == old(self)@.cells.len(),
            final(self)@.registry == old(self)@.registry,
            forall|i: int| 0 <= i < final(self)@.cells.len() ==> (#[trigger] final(self)@.boxes[i]).closed,
            forall|i: int| 0 <= i < final(self)@.cells.len() ==> (#[trigger] final(self)@.cells[i]).state == ActorState::Stopped,
            forall|k: Seq<Seq<char>>| #[trigger] final(self)@.registry.contains_key(k) ==> (final(self)@.registry[k] as int)
                < final(self)@.cells.len() && final(self)@.cells[final(self)@.registry[k] as int].state == ActorState::Stopped
                && final(self)@.boxes[final(self)@.registry[k] as int].closed,
            final(self)@.replies.len() == old(self)@.replies.len(),
            forall|i: int, r: u64| 0 <= i < old(self)@.cells.len() && (r as int) < old(self)@.replies.len() && #[trigger] awaits(old(self)@, i, r)
                ==> final(self)@.replies[r as int] is Canceled,
    {
        proof {
            self.lemma_wf();
        }
        let ghost v0 = self@;
        self.shut_down = true;
        self.timers = Vec::new();
        proof {
            assert(self@.boxes == v0.boxes && self@.cells == v0.cells && self@.replies == v0.replies);
        }
        let n = self.cells.len();
        let mut i: usize = 0;
        while i < n
            invariant
                self.wf(),
                n == self@.cells.len(),
                n == self.cells@.len(),
                n == self@.boxes.len(),
                i <= n,
                self@.shut_down,
                self@.timers.len() == 0,
                self@.registry == old(self)@.registry,
                self@.replies.len() == old(self)@.replies.len(),
                forall|j: int, r: u64| 0 <= j < i && (r as int) < old(self)@.replies.len() && #[trigger] awaits(old(self)@, j, r)
                    ==> self@.replies[r as int] is Canceled,
                forall|j: int| i <= j < n ==> (#[trigger] self@.cells[j]).in_flight == old(self)@.cells[j].in_flight,
                forall|j: int| i <= j < n ==> old(self)@.boxes[j].queue.len() <= (#[trigger] self@.boxes[j]).queue.len(),
                forall|j: int, k: int| i <= j < n && 0 <= k < old(self)@.boxes[j].queue.len() ==> #[trigger] self@.boxes[j].queue[k]
                    == old(self)@.boxes[j].queue[k],
                forall|j: int| 0 <= j < i ==> (#[trigger] self@.boxes[j]).closed,
                forall|j: int| 0 <= j < i ==> (#[trigger] self@.cells[j]).state == ActorState::Stopped,
            decreases n - i,
        {
            proof {
                self.lemma_wf();
            }
            let ghost before = self@;
            let ghost before_cells = self.cells@;
            let was_open = !self.mailboxes[i].is_closed();
            if was_open {
                self.stop_cell(i);
            } else {
                let in_flight = self.cells[i].in_flight;
                self.cancel_slot(in_flight);
            }
            let ghost stopped = self@;
            proof {
                assert(self.cells@.len() == self@.cells.len());
                if was_open {
                    assert(self@ == stopped_view(before, i as int));
                } else {
                    assert(self@ == before.with_replies(cancel(before.replies, before.cells[i as int].in_flight)));
                    assert(before.boxes[i as int].closed);
                }
            }
            let ghost mid = self@;
            let ghost mid_cells = self.cells@;
            self.cells[i].state = ActorState::Stopped;
            proof {
                assert(self@.boxes =~= mid.boxes);
                assert(self@.cells =~= mid.cells.update(i as int, CellView { state: ActorState::Stopped, ..mid.cells[i as int] }));
                lemma_paths_kept(mid_cells, self.cells@, i as int);
                assert forall|j: int| 0 <= j <= i implies (#[trigger] self@.boxes[j]).closed && self@.cells[j].state == ActorState::Stopped by {
                    if was_open {
                        let c = before.cells[i as int];
                        let closed = before.boxes.update(i as int, MailboxView { queue: Seq::empty(), closed: true });
                        assert(closed[j].closed);
                        lemma_post_all_keeps_closed(closed, stop_sends(c, ActorId(i as u64)), j);
                    }
                    if j < i {
                        assert(before.boxes[j].closed);
                        assert(mid.cells[j] == before.cells[j]);
                    }
                }
            }
            proof {
                let c = before.cells[i as int];
                let first = cancel(before.replies, c.in_flight);
                let closed = before.boxes.update(i as int, MailboxView { queue: Seq::empty(), closed: true });
                assert(self@.replies == stopped.replies);
                lemma_cancel_all_len(first, before.boxes[i as int].queue);
                assert forall|j: int, r: u64| 0 <= j <= i && (r as int) < old(self)@.replies.len() && #[trigger] awaits(old(self)@, j, r)
                    implies self@.replies[r as int] is Canceled by {
                    if j < i {
                        assert(before.replies[r as int] is Canceled);
                        assert(first[r as int] is Canceled);
                        if was_open {
                            lemma_cancel_all(first, before.boxes[i as int].queue, r);
                        }
                    } else {
                        if c.in_flight == Some(r) {
                            assert(first[r as int] is Canceled);
                            if was_open {
                                lemma_cancel_all(first, before.boxes[i as int].queue, r);
                            }
                        } else {
                            let k = choose|k: int| 0 <= k < old(self)@.boxes[j].queue.len() && reply_of(#[trigger] old(self)@.boxes[j].queue[k]) == Some(r);
                            assert(before.boxes[i as int].queue[k] == old(self)@.boxes[j].queue[k]);
                            if was_open {
                                lemma_cancel_all(first, before.boxes[i as int].queue, r);
                            } else {
                                assert(old(self)@.boxes[j].queue.len() <= before.boxes[j].queue.len());
                                assert(before.boxes[j].queue.len() == 0);
                            }
                        }
                    }
                }
                assert forall|j: int| i < j < n implies old(self)@.boxes[j].queue.len() <= (#[trigger] self@.boxes[j]).queue.len()
                    && (forall|k: int| 0 <= k < old(self)@.boxes[j].queue.len() ==> self@.boxes[j].queue[k] == old(self)@.boxes[j].queue[k]) by {
                    if was_open {
                        lemma_post_all_extends(closed, stop_sends(c, ActorId(i as u64)), j);
                        assert(closed[j] == before.boxes[j]);
                    }
                    assert forall|k: int| 0 <= k < old(self)@.boxes[j].queue.len() implies self@.boxes[j].queue[k] == old(self)@.boxes[j].queue[k] by {
                        assert(before.boxes[j].queue[k] == old(self)@.boxes[j].queue[k]);
                    }
                }
                assert forall|j: int| i < j < n implies (#[trigger] self@.cells[j]).in_flight == old(self)@.cells[j].in_flight by {
                    assert(self@.cells[j] == before.cells[j]);
                }
            }
            i = i + 1;
        }
    }
}

} // verus!
