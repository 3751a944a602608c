//! The monitor bus: a bounded, multi-subscriber broadcast of command-log
//! lines with most-recent-wins overflow. This is the sequential core; the
//! session layer wraps it in a lock and a condition variable and blocks
//! where `recv` here reports that nothing new has arrived yet.

use vstd::prelude::*;

verus! {

pub struct Monitor {
    pub queue: Vec<String>,
    pub start: usize,
    pub stop: usize,
    pub max_queue_size: usize,
}

pub struct Listener {
    pub position: usize,
}

/// The bus after exactly one send of `message`: the counters move and the
/// queue gains it, dropping its oldest message when it was full.
pub open spec fn sent(pre: Monitor, post: Monitor, message: Seq<char>) -> bool {
    &&& post.stop == pre.stop + 1
    &&& post.capacity() == pre.capacity()
    &&& if pre.queue.len() < pre.capacity() {
        post.queue_view() == pre.queue_view().push(message) && post.start == pre.start
    } else {
        post.queue_view() == pre.queue_view().drop_first().push(message) && post.start == pre.start
            + 1
    }
}

impl Monitor {
    /// The messages currently held, oldest first.
    pub open spec fn queue_view(&self) -> Seq<Seq<char>> {
        self.queue.deep_view()
    }

    pub open spec fn capacity(&self) -> int {
        self.max_queue_size as int
    }

    /// `stop` counts every message ever sent, `start` every message
    /// dropped to overflow; what remains is the queue.
    pub open spec fn wf(&self) -> bool {
        &&& self.capacity() >= 1
        &&& self.start + self.queue.len() == self.stop
        &&& self.queue.len() <= self.capacity()
        &&& self.start > 0 ==> self.queue.len() == self.capacity()
    }

    pub fn new(max_queue_size: usize) -> (m: Monitor)
        requires
            max_queue_size >= 1,
        ensures
            m.wf(),
            m.queue_view() == Seq::<Seq<char>>::empty(),
            m.start == 0,
            m.stop == 0,
            m.capacity() == max_queue_size,
    {
        let m = Monitor { queue: Vec::new(), start: 0, stop: 0, max_queue_size };
        proof {
            assert(m.queue_view() =~= Seq::<Seq<char>>::empty());
        }
        m
    }

    /// Appends a message; when the queue would exceed its capacity the
    /// oldest message is dropped and `start` moves past it.
    pub fn send(&mut self, payload: String)
        requires
            old(self).wf(),
            old(self).stop < usize::MAX,
        ensures
            final(self).wf(),
            sent(*old(self), *final(self), payload@),
    {
        self.queue.push(payload);
        if self.queue.len() > self.max_queue_size {
            self.queue.remove(0);
            self.start = self.start + 1;
        }
        self.stop = self.stop + 1;
        proof {
            if old(self).queue.len() < old(self).capacity() {
                assert(self.queue_view() =~= old(self).queue_view().push(
                    self.queue_view().last(),
                ));
            } else {
                assert(self.queue_view() =~= old(self).queue_view().drop_first().push(
                    self.queue_view().last(),
                ));
            }
        }
    }

    /// A new listener starts at the tail: it sees only messages sent after
    /// this call.
    pub fn listen(&self) -> (l: Listener)
        ensures
            l.position == self.stop,
    {
        Listener { position: self.stop }
    }
}

impl Listener {
    /// A listener never runs ahead of the bus it listens to.
    pub open spec fn wf(&self, monitor: &Monitor) -> bool {
        self.position <= monitor.stop
    }

    /// Takes the next message, skipping to the oldest one still held when
    /// the bus overflowed past this listener; None when the listener has
    /// seen everything sent so far.
    pub fn recv(&mut self, monitor: &Monitor) -> (r: Option<String>)
        requires
            monitor.wf(),
            old(self).wf(monitor),
        ensures
            final(self).wf(monitor),
            old(self).position == monitor.stop ==> r is None && final(self).position == old(
                self,
            ).position,
            old(self).position < monitor.stop ==> {
                let at = if old(self).position >= monitor.start {
                    old(self).position as int
                } else {
                    monitor.start as int
                };
                &&& r matches Some(m) && m@ == monitor.queue_view()[at - monitor.start]
                &&& final(self).position == at + 1
            },
    {
        if self.position == monitor.stop {
            return None;
        }
        if self.position < monitor.start {
            self.position = monitor.start;
        }
        let message = monitor.queue[self.position - monitor.start].clone();
        self.position = self.position + 1;
        Some(message)
    }
}

} // verus!
