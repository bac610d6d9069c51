use vstd::prelude::*;
use crate::tiles::WorkBlock;

verus! {

/// The shared work queue of a render: blocks waiting for a worker (popped
/// last-in first-out), how many were handed out, how many are done, and the
/// cooperative cancellation flag.
pub struct RenderQueue {
    pending: Vec<WorkBlock>,
    total: u32,
    handed_out: u32,
    done: u32,
    cancelled: bool,
}

/// Mathematical state of a [`RenderQueue`].
pub struct QueueState {
    pub pending: Seq<WorkBlock>,
    pub total: nat,
    pub handed_out: nat,
    pub done: nat,
    pub cancelled: bool,
}

impl QueueState {
    /// Every block is either pending or handed out, and only handed-out blocks
    /// can be done.
    pub open spec fn wf(self) -> bool {
        &&& self.pending.len() + self.handed_out == self.total
        &&& self.done <= self.handed_out
        &&& self.total <= u32::MAX
    }

    /// A worker asks for work: nothing once cancelled or drained, else the
    /// block on top of the stack.
    pub open spec fn poll(self) -> (QueueState, Option<WorkBlock>) {
        if self.cancelled || self.pending.len() == 0 {
            (self, None)
        } else {
            (
                QueueState {
                    pending: self.pending.drop_last(),
                    handed_out: self.handed_out + 1,
                    ..self
                },
                Some(self.pending.last()),
            )
        }
    }

    /// The state after `n` polls in a row.
    pub open spec fn polled(self, n: nat) -> QueueState
        decreases n,
    {
        if n == 0 {
            self
        } else {
            self.poll().0.polled((n - 1) as nat)
        }
    }

    /// A worker reports one of its blocks as rendered.
    pub open spec fn complete(self) -> QueueState {
        QueueState { done: self.done + 1, ..self }
    }

    pub open spec fn cancel(self) -> QueueState {
        QueueState { cancelled: true, ..self }
    }
}

impl View for RenderQueue {
    type V = QueueState;

    closed spec fn view(&self) -> QueueState {
        QueueState {
            pending: self.pending@,
            total: self.total as nat,
            handed_out: self.handed_out as nat,
            done: self.done as nat,
            cancelled: self.cancelled,
        }
    }
}

impl RenderQueue {
    pub open spec fn wf(&self) -> bool {
        self@.wf()
    }

    /// A queue holding `blocks`, none handed out, not cancelled.
    pub fn new(blocks: Vec<WorkBlock>) -> (r: RenderQueue)
        requires
            blocks@.len() <= u32::MAX,
        ensures
            r.wf(),
            r@.pending == blocks@,
            r@.total == blocks@.len(),
            r@.handed_out == 0,
            r@.done == 0,
            !r@.cancelled,
    {
        let total = blocks.len() as u32;
        RenderQueue { pending: blocks, total, handed_out: 0, done: 0, cancelled: false }
    }

    /// Pops the next block for a worker; `None` tells the worker to stop.
    pub fn next_block(&mut self) -> (r: Option<WorkBlock>)
        requires
            old(self).wf(),
        ensures
            final(self).wf(),
            (final(self)@, r) == old(self)@.poll(),
    {
        if self.cancelled {
            return None;
        }
        let r = self.pending.pop();
        if r.is_some() {
            self.handed_out = self.handed_out + 1;
        }
        r
    }

    /// Records that a handed-out block has been rendered.
    pub fn complete_block(&mut self)
        requires
            old(self).wf(),
            old(self)@.done < old(self)@.handed_out,
        ensures
            final(self).wf(),
            final(self)@ == old(self)@.complete(),
    {
        self.done = self.done + 1;
    }

    /// Asks the workers to stop at their next poll.
    pub fn cancel(&mut self)
        requires
            old(self).wf(),
        ensures
            final(self).wf(),
            final(self)@ == old(self)@.cancel(),
    {
        self.cancelled = true;
    }

    pub fn is_cancelled(&self) -> (r: bool)
        ensures
            r == self@.cancelled,
    {
        self.cancelled
    }

    /// Number of blocks rendered so far.
    pub fn blocks_done(&self) -> (r: u32)
        ensures
            r == self@.done,
    {
        self.done
    }

    pub fn total_blocks(&self) -> (r: u32)
        ensures
            r == self@.total,
    {
        self.total
    }

    pub fn blocks_pending(&self) -> (r: usize)
        ensures
            r == self@.pending.len(),
    {
        self.pending.len()
    }

    /// Every block has been rendered.
    pub fn is_finished(&self) -> (r: bool)
        requires
            self.wf(),
        ensures
            r == (self@.done == self@.total),
    {
        self.done == self.total
    }
}

/// The progress counter never passes the number of blocks, whatever the
/// interleaving of polls, completions and cancellation.
pub proof fn lemma_done_within_total(q: QueueState)
    requires
        q.wf(),
    ensures
        q.done <= q.total,
        q.poll().0.wf(),
        q.cancel().wf(),
        q.done < q.handed_out ==> q.complete().wf(),
{
}

/// Once cancellation is requested, every further poll hands out nothing, so
/// no block is started and the counter of finished blocks stays bounded by
/// the blocks handed out before.
pub proof fn lemma_cancel_stops_handout(q: QueueState, n: nat)
    requires
        q.wf(),
        q.cancelled,
    ensures
        q.polled(n) == q,
        q.polled(n).poll().1 is None,
        q.polled(n).done <= q.polled(n).total,
    decreases n,
{
    if n > 0 {
        lemma_cancel_stops_handout(q, (n - 1) as nat);
    }
}

/// A worker loop ends within a bounded number of polls: after as many polls
/// as there are pending blocks, the next poll hands out nothing.
pub proof fn lemma_polls_bounded(q: QueueState)
    requires
        q.wf(),
    ensures
        q.polled(q.pending.len()).poll().1 is None,
        q.polled(q.pending.len()).wf(),
        q.polled(q.pending.len()).done == q.done,
    decreases q.pending.len(),
{
    if q.cancelled {
        lemma_cancel_stops_handout(q, q.pending.len());
    } else if q.pending.len() > 0 {
        let next = q.poll().0;
        lemma_polls_bounded(next);
        assert(next.pending.len() == q.pending.len() - 1);
    }
}

} // verus!
