use vstd::prelude::*;

use crate::error::SendError;
use crate::message::Envelope;

verus! {

/// What a mailbox holds: the envelopes waiting, oldest first, and whether it is closed.
pub struct MailboxView<P> {
    pub queue: Seq<Envelope<P>>,
    pub closed: bool,
}

/// The mailbox after an enqueue: a closed mailbox refuses, an open one appends.
pub open spec fn enqueued<P>(v: MailboxView<P>, e: Envelope<P>) -> MailboxView<P> {
    if v.closed {
        v
    } else {
        MailboxView { queue: v.queue.push(e), closed: false }
    }
}

/// The mailbox after enqueueing each envelope of `es` in turn.
pub open spec fn enqueued_all<P>(v: MailboxView<P>, es: Seq<Envelope<P>>) -> MailboxView<P>
    decreases es.len(),
{
    if es.len() == 0 {
        v
    } else {
        enqueued(enqueued_all(v, es.drop_last()), es.last())
    }
}

/// The mailbox after `k` dequeues.
pub open spec fn dequeued_n<P>(v: MailboxView<P>, k: nat) -> MailboxView<P>
    decreases k,
{
    if k == 0 || v.queue.len() == 0 {
        v
    } else {
        dequeued_n(MailboxView { queue: v.queue.drop_first(), closed: v.closed }, (k - 1) as nat)
    }
}

/// The per-actor FIFO queue of pending envelopes.
#[derive(Debug)]
pub struct Mailbox<P> {
    queue: Vec<Envelope<P>>,
    closed: bool,
}

impl<P> View for Mailbox<P> {
    type V = MailboxView<P>;

    closed spec fn view(&self) -> MailboxView<P> {
        MailboxView { queue: self.queue@, closed: self.closed }
    }
}

impl<P> Mailbox<P> {
    /// A closed mailbox holds nothing.
    pub open spec fn wf(&self) -> bool {
        self@.closed ==> self@.queue.len() == 0
    }

    /// An open, empty mailbox.
    pub fn new() -> (r: Self)
        ensures
            r@.queue.len() == 0,
            !r@.closed,
            r.wf(),
    {
        Mailbox { queue: Vec::new(), closed: false }
    }

    pub fn is_closed(&self) -> (r: bool)
        ensures
            r == self@.closed,
    {
        self.closed
    }

    pub fn len(&self) -> (r: usize)
        ensures
            r == self@.queue.len(),
    {
        self.queue.len()
    }

    /// Appends `e` unless the mailbox is closed.
    pub fn enqueue(&mut self, e: Envelope<P>) -> (r: Result<(), SendError>)
        requires
            old(self).wf(),
        ensures
            final(self).wf(),
            final(self)@ == enqueued(old(self)@, e),
            r == (if old(self)@.closed { Err::<(), SendError>(SendError::Closed) } else { Ok(()) }),
    {
        if self.closed {
            Err(SendError::Closed)
        } else {
            self.queue.push(e);
            Ok(())
        }
    }

    /// Removes and returns the oldest envelope.
    pub fn dequeue(&mut self) -> (r: Option<Envelope<P>>)
        requires
            old(self).wf(),
        ensures
            final(self).wf(),
            old(self)@.queue.len() == 0 ==> r is None && final(self)@ == old(self)@,
            old(self)@.queue.len() > 0 ==> r == Some(old(self)@.queue[0]) && final(self)@ == dequeued_n(old(self)@, 1),
            old(self)@.queue.len() > 0 ==> final(self)@ == (MailboxView {
                queue: old(self)@.queue.drop_first(),
                closed: old(self)@.closed,
            }),
    {
        if self.queue.len() == 0 {
            None
        } else {
            let e = self.queue.remove(0);
            proof {
                assert(self@.queue =~= old(self)@.queue.drop_first());
                let d = MailboxView { queue: old(self)@.queue.drop_first(), closed: old(self)@.closed };
                assert(dequeued_n(d, 0) == d);
            }
            Some(e)
        }
    }

    /// Closes the mailbox and hands back what was still waiting, oldest first.
    pub fn close(&mut self) -> (r: Vec<Envelope<P>>)
        ensures
            r@ == old(self)@.queue,
            final(self)@.closed,
            final(self)@.queue.len() == 0,
            final(self).wf(),
    {
        self.closed = true;
        let mut drained: Vec<Envelope<P>> = Vec::new();
        std::mem::swap(&mut drained, &mut self.queue);
        drained
    }
}

/// Envelopes from one sender keep their order: whatever other senders enqueue in
/// between, `m1` sent before `m2` stands ahead of it in the queue.
pub proof fn lemma_fifo_per_edge<P>(v: MailboxView<P>, m1: Envelope<P>, others: Seq<Envelope<P>>, m2: Envelope<P>)
    requires
        !v.closed,
    ensures
        ({
            let w = enqueued(enqueued_all(enqueued(v, m1), others), m2);
            &&& w.queue == v.queue + seq![m1] + others + seq![m2]
            &&& w.queue[v.queue.len() as int] == m1
            &&& w.queue[v.queue.len() + others.len() + 1int] == m2
        }),
{
    lemma_enqueued_all_open(enqueued(v, m1), others);
    let w = enqueued(enqueued_all(enqueued(v, m1), others), m2);
    assert(w.queue =~= v.queue + seq![m1] + others + seq![m2]);
}

/// Enqueueing into an open mailbox appends, in order.
pub proof fn lemma_enqueued_all_open<P>(v: MailboxView<P>, es: Seq<Envelope<P>>)
    requires
        !v.closed,
    ensures
        enqueued_all(v, es).queue == v.queue + es,
        !enqueued_all(v, es).closed,
    decreases es.len(),
{
    if es.len() > 0 {
        lemma_enqueued_all_open(v, es.drop_last());
        assert(v.queue + es.drop_last() + seq![es.last()] =~= v.queue + es);
    } else {
        assert(v.queue + es =~= v.queue);
    }
}

/// Dequeues take envelopes from the front: after `k` of them, what remains is the
/// queue without its first `k` envelopes, so the `k`-th dequeue hands out `queue[k - 1]`.
pub proof fn lemma_dequeue_order<P>(v: MailboxView<P>, k: nat)
    requires
        k <= v.queue.len(),
    ensures
        dequeued_n(v, k).queue == v.queue.skip(k as int),
    decreases k,
{
    if k > 0 {
        let d = MailboxView { queue: v.queue.drop_first(), closed: v.closed };
        lemma_dequeue_order(d, (k - 1) as nat);
        assert(d.queue.skip(k - 1) =~= v.queue.skip(k as int));
    } else {
        assert(v.queue.skip(0) =~= v.queue);
    }
}

} // verus!
