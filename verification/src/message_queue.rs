//! Dual-queue message system for steering and follow-up messages.
use std::collections::VecDeque;

use vstd::prelude::*;

verus! {

/// Controls how queued messages are drained each turn.
#[derive(Clone, Copy, Debug, PartialEq, Eq, Structural)]
pub enum QueueMode {
    /// Drain all queued messages at once.
    All,
    /// Drain one message per iteration (the rest wait for the next turn).
    OneAtATime,
}

impl Default for QueueMode {
    fn default() -> (m: QueueMode)
        ensures
            m == QueueMode::All,
    {
        QueueMode::All
    }
}

/// What draining `q` in `mode` hands out, and what stays queued.
pub open spec fn drain_split(mode: QueueMode, q: Seq<String>) -> (Seq<String>, Seq<String>) {
    match mode {
        QueueMode::All => (q, Seq::empty()),
        QueueMode::OneAtATime => if q.len() == 0 {
            (Seq::empty(), q)
        } else {
            (seq![q[0]], q.drop_first())
        },
    }
}

/// Steering messages are injected mid-run and processed at the next turn;
/// follow-up messages are processed after the agent stops naturally.
/// `QueueMode` controls how many messages are drained per turn.
pub struct MessageQueue {
    steering: VecDeque<String>,
    follow_up: VecDeque<String>,
    mode: QueueMode,
}

impl MessageQueue {
    /// The steering messages waiting, oldest first.
    pub closed spec fn steering_queue(&self) -> Seq<String> {
        self.steering@
    }

    /// The follow-up messages waiting, oldest first.
    pub closed spec fn follow_up_queue(&self) -> Seq<String> {
        self.follow_up@
    }

    /// The current drain mode.
    pub closed spec fn drain_mode(&self) -> QueueMode {
        self.mode
    }

    pub fn new() -> (q: MessageQueue)
        ensures
            q.steering_queue().len() == 0,
            q.follow_up_queue().len() == 0,
            q.drain_mode() == QueueMode::All,
    {
        MessageQueue { steering: VecDeque::new(), follow_up: VecDeque::new(), mode: QueueMode::default() }
    }

    pub fn with_mode(mode: QueueMode) -> (q: MessageQueue)
        ensures
            q.steering_queue().len() == 0,
            q.follow_up_queue().len() == 0,
            q.drain_mode() == mode,
    {
        MessageQueue { steering: VecDeque::new(), follow_up: VecDeque::new(), mode }
    }

    /// Set the drain mode for both queues.
    pub fn set_mode(&mut self, mode: QueueMode)
        ensures
            final(self).drain_mode() == mode,
            final(self).steering_queue() == old(self).steering_queue(),
            final(self).follow_up_queue() == old(self).follow_up_queue(),
    {
        self.mode = mode;
    }

    /// The current drain mode.
    pub fn mode(&self) -> (m: QueueMode)
        ensures
            m == self.drain_mode(),
    {
        self.mode
    }

    /// Queue a steering message, processed at the start of the next turn.
    pub fn steer(&mut self, message: String)
        ensures
            final(self).steering_queue() == old(self).steering_queue().push(message),
            final(self).follow_up_queue() == old(self).follow_up_queue(),
            final(self).drain_mode() == old(self).drain_mode(),
    {
        self.steering.push_back(message);
    }

    /// Queue a follow-up message, processed after the agent stops.
    pub fn follow_up(&mut self, message: String)
        ensures
            final(self).follow_up_queue() == old(self).follow_up_queue().push(message),
            final(self).steering_queue() == old(self).steering_queue(),
            final(self).drain_mode() == old(self).drain_mode(),
    {
        self.follow_up.push_back(message);
    }

    /// Drain steering messages according to the current mode.
    pub fn drain_steering(&mut self) -> (r: Vec<String>)
        ensures
            (r@, final(self).steering_queue()) == drain_split(old(self).drain_mode(), old(self).steering_queue()),
            final(self).follow_up_queue() == old(self).follow_up_queue(),
            final(self).drain_mode() == old(self).drain_mode(),
    {
        drain_queue(&mut self.steering, self.mode)
    }

    /// Drain follow-up messages according to the current mode.
    pub fn drain_follow_up(&mut self) -> (r: Vec<String>)
        ensures
            (r@, final(self).follow_up_queue()) == drain_split(old(self).drain_mode(), old(self).follow_up_queue()),
            final(self).steering_queue() == old(self).steering_queue(),
            final(self).drain_mode() == old(self).drain_mode(),
    {
        drain_queue(&mut self.follow_up, self.mode)
    }

    /// Whether any steering message is waiting.
    pub fn has_steering(&self) -> (b: bool)
        ensures
            b == (self.steering_queue().len() > 0),
    {
        self.steering.len() > 0
    }
}

fn drain_queue(queue: &mut VecDeque<String>, mode: QueueMode) -> (r: Vec<String>)
    ensures
        (r@, final(queue)@) == drain_split(mode, old(queue)@),
{
    let mut out: Vec<String> = Vec::new();
    match mode {
        QueueMode::All => {
            let ghost q = queue@;
            while queue.len() > 0
                invariant
                    out@ + queue@ == q,
                decreases queue@.len(),
            {
                let ghost before = queue@;
                match queue.pop_front() {
                    Some(m) => {
                        out.push(m);
                        assert(out@ + queue@ =~= q);
                    },
                    None => {},
                }
            }
            assert(out@ =~= q);
        },
        QueueMode::OneAtATime => {
            match queue.pop_front() {
                Some(m) => {
                    out.push(m);
                    assert(out@ =~= seq![old(queue)@[0]]);
                    assert(queue@ =~= old(queue)@.drop_first());
                },
                None => {},
            }
        },
    }
    out
}

/// Draining a queue hands out its messages in the order they were queued:
/// what the drain hands out, followed by what stays, is the queue.
pub proof fn lemma_drain_keeps_order(mode: QueueMode, q: Seq<String>)
    ensures
        drain_split(mode, q).0 + drain_split(mode, q).1 == q,
        drain_split(mode, q).0.len() <= q.len(),
{
    if mode == QueueMode::OneAtATime && q.len() > 0 {
        assert(seq![q[0]] + q.drop_first() =~= q);
    } else {
        assert(q + Seq::<String>::empty() =~= q);
        assert(Seq::<String>::empty() + q =~= q);
    }
}

} // verus!
