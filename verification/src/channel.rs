//! One-directional FIFO update queues fanning parameter changes out from the
//! state hub to its consumers.
//!
//! Each queue has one conceptual producer and one consumer. `send` always
//! succeeds and `try_receive` never blocks: an empty queue simply reports no
//! message. Per queue, delivery order equals send order; the two queues of a
//! hub are completely independent of each other.

use vstd::prelude::*;

verus! {

/// A discrete operation that can update the plugin's long-term state: a new
/// target value for the single amplitude knob, in fixed-point units.
#[derive(Clone, Copy, PartialEq, Eq, Structural, Debug)]
pub enum StateUpdate {
    SetKnob(i64),
}

impl StateUpdate {
    /// The knob value this update carries.
    pub open spec fn knob_value(self) -> int {
        match self {
            StateUpdate::SetKnob(v) => v as int,
        }
    }
}

/// An unbounded FIFO queue of state updates. Messages leave in the order
/// they entered; no message is dropped or duplicated.
pub struct UpdateChannel {
    queue: Vec<StateUpdate>,
}

impl View for UpdateChannel {
    type V = Seq<StateUpdate>;

    /// The queued messages, oldest first.
    closed spec fn view(&self) -> Seq<StateUpdate> {
        self.queue@
    }
}

impl UpdateChannel {
    pub fn new() -> (c: Self)
        ensures
            c@ == Seq::<StateUpdate>::empty(),
    {
        UpdateChannel { queue: Vec::new() }
    }

    /// Enqueues a message. Always succeeds and returns immediately (subject
    /// only to available memory).
    pub fn send(&mut self, message: StateUpdate)
        ensures
            final(self)@ == old(self)@.push(message),
    {
        self.queue.push(message);
    }

    /// Dequeues the oldest message if one exists; never blocks. An empty
    /// queue is left unchanged and reported as `None`.
    pub fn try_receive(&mut self) -> (r: Option<StateUpdate>)
        ensures
            match r {
                Some(message) => old(self)@.len() > 0 && message == old(self)@.first()
                    && final(self)@ == old(self)@.drop_first(),
                None => old(self)@.len() == 0 && final(self)@ == old(self)@,
            },
    {
        if self.queue.len() == 0 {
            None
        } else {
            let message = self.queue.remove(0);
            Some(message)
        }
    }

    /// Number of queued messages.
    pub fn len(&self) -> (n: usize)
        ensures
            n == self@.len(),
    {
        self.queue.len()
    }
}

/// The queue left over after a consumer has received `k` messages one at a
/// time from a queue that held `q` (each receive takes the oldest message,
/// as [`UpdateChannel::try_receive`] ensures).
pub open spec fn remaining_after(q: Seq<StateUpdate>, k: nat) -> Seq<StateUpdate>
    decreases k,
{
    if k == 0 {
        q
    } else {
        remaining_after(q, (k - 1) as nat).drop_first()
    }
}

/// The messages such a consumer has observed, in the order it received them.
pub open spec fn observed_through(q: Seq<StateUpdate>, k: nat) -> Seq<StateUpdate>
    decreases k,
{
    if k == 0 {
        Seq::empty()
    } else {
        observed_through(q, (k - 1) as nat).push(remaining_after(q, (k - 1) as nat).first())
    }
}

/// FIFO law: for any sequence `q` of sent messages, a consumer draining the
/// queue one message at a time observes exactly the first `k` sent messages,
/// in send order, with the rest still queued in order.
pub proof fn lemma_channel_fifo(q: Seq<StateUpdate>, k: nat)
    requires
        k <= q.len(),
    ensures
        observed_through(q, k) == q.take(k as int),
        remaining_after(q, k) == q.skip(k as int),
    decreases k,
{
    if k == 0 {
        assert(observed_through(q, 0) =~= q.take(0));
        assert(remaining_after(q, 0) =~= q.skip(0));
    } else {
        lemma_channel_fifo(q, (k - 1) as nat);
        assert(observed_through(q, k) =~= q.take(k as int));
        assert(remaining_after(q, k) =~= q.skip(k as int));
    }
}

} // verus!
