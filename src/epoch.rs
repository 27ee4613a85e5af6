use vstd::prelude::*;

verus! {

/// Where one source stood when it emitted an epoch marker: the identifier of
/// its last message.
#[derive(Debug, Clone, Copy, PartialEq, Eq, Structural)]
pub struct SourceState {
    pub source: usize,
    pub txid: u64,
    pub seq_in_tx: u64,
}

/// A commit barrier: its number and, for each source, how far it had come.
#[derive(Debug, Clone, PartialEq, Eq)]
pub struct Epoch {
    pub id: u64,
    pub details: Vec<SourceState>,
}

/// What a processor or sink does with the message it has just read.
#[derive(Debug, Clone, Copy, PartialEq, Eq, Structural)]
pub enum Step {
    /// Hand the operation to the operator.
    Process,
    /// Every input has reached this epoch: commit it, then forward the marker.
    Commit(u64),
    /// Keep reading; this input is now held until the commit.
    Wait,
    /// Every input has terminated: forward the termination and stop.
    Finished,
    /// The input broke the marker protocol.
    Violation,
}

/// What a message carries, as far as epoch alignment is concerned.
#[derive(Debug, Clone, Copy, PartialEq, Eq, Structural)]
pub enum Arrival {
    Op,
    Marker(u64),
    Terminate,
}

/// Aligns the epoch markers arriving on the inputs of one processor or sink.
/// An input that has delivered the marker of the pending epoch is held until
/// every other input has delivered it too or has terminated; then the epoch
/// is committed and all inputs are released.
pub struct InputAligner {
    next_epoch: u64,
    reached: Vec<bool>,
    closed: Vec<bool>,
    commits: Ghost<Seq<u64>>,
}

impl InputAligner {
    /// The epoch that will be committed next.
    pub closed spec fn pending(&self) -> nat {
        self.next_epoch as nat
    }

    /// Which inputs have delivered the marker of the pending epoch.
    pub closed spec fn reached(&self) -> Seq<bool> {
        self.reached@
    }

    /// Which inputs have terminated.
    pub closed spec fn closed(&self) -> Seq<bool> {
        self.closed@
    }

    /// The epochs committed so far, in order.
    pub closed spec fn commits(&self) -> Seq<u64> {
        self.commits@
    }

    pub closed spec fn wf(&self) -> bool {
        &&& self.reached@.len() == self.closed@.len()
        &&& forall|i: int| 0 <= i < self.reached@.len() ==> !(#[trigger] self.reached@[i] && self.closed@[i])
        &&& self.commits@.len() == self.next_epoch
        &&& forall|i: int| 0 <= i < self.commits@.len() ==> #[trigger] self.commits@[i] == i
    }

    pub open spec fn ports(&self) -> nat {
        self.reached().len()
    }

    /// Every input has delivered the pending marker or has terminated.
    pub open spec fn aligned(reached: Seq<bool>, closed: Seq<bool>) -> bool {
        forall|i: int| 0 <= i < reached.len() ==> #[trigger] reached[i] || closed[i]
    }

    pub open spec fn all_closed(closed: Seq<bool>) -> bool {
        forall|i: int| 0 <= i < closed.len() ==> #[trigger] closed[i]
    }

    pub open spec fn some_reached(reached: Seq<bool>) -> bool {
        exists|i: int| 0 <= i < reached.len() && #[trigger] reached[i]
    }

    pub fn new(ports: usize) -> (r: InputAligner)
        ensures
            r.wf(),
            r.ports() == ports,
            r.pending() == 0,
            r.commits() == Seq::<u64>::empty(),
            forall|i: int| 0 <= i < ports ==> !#[trigger] r.reached()[i] && !r.closed()[i],
            r.closed().len() == ports,
    {
        let mut reached: Vec<bool> = Vec::new();
        let mut closed: Vec<bool> = Vec::new();
        let mut i: usize = 0;
        while i < ports
            invariant
                i <= ports,
                reached@.len() == i,
                closed@.len() == i,
                forall|j: int| 0 <= j < i ==> !#[trigger] reached@[j] && !closed@[j],
            decreases ports - i,
        {
            reached.push(false);
            closed.push(false);
            i = i + 1;
        }
        InputAligner { next_epoch: 0, reached, closed, commits: Ghost(Seq::empty()) }
    }

    /// Whether the worker may take the next message of input `port`: only an
    /// open input that has not yet delivered the pending marker.
    pub fn can_read(&self, port: usize) -> (r: bool)
        requires
            self.wf(),
            port < self.ports(),
        ensures
            r == (!self.reached()[port as int] && !self.closed()[port as int]),
    {
        !self.reached[port] && !self.closed[port]
    }

    pub fn pending_epoch(&self) -> (r: u64)
        ensures
            r == self.pending(),
    {
        self.next_epoch
    }

    fn is_aligned(&self) -> (r: bool)
        requires
            self.reached@.len() == self.closed@.len(),
        ensures
            r == Self::aligned(self.reached@, self.closed@),
    {
        let mut i: usize = 0;
        while i < self.reached.len()
            invariant
                self.reached@.len() == self.closed@.len(),
                i <= self.reached@.len(),
                forall|j: int| 0 <= j < i ==> #[trigger] self.reached@[j] || self.closed@[j],
            decreases self.reached@.len() - i,
        {
            if !self.reached[i] && !self.closed[i] {
                return false;
            }
            i = i + 1;
        }
        true
    }

    fn is_all_closed(&self) -> (r: bool)
        ensures
            r == Self::all_closed(self.closed@),
    {
        let mut i: usize = 0;
        while i < self.closed.len()
            invariant
                i <= self.closed@.len(),
                forall|j: int| 0 <= j < i ==> #[trigger] self.closed@[j],
            decreases self.closed@.len() - i,
        {
            if !self.closed[i] {
                return false;
            }
            i = i + 1;
        }
        true
    }

    fn is_some_reached(&self) -> (r: bool)
        ensures
            r == Self::some_reached(self.reached@),
    {
        let mut i: usize = 0;
        while i < self.reached.len()
            invariant
                i <= self.reached@.len(),
                forall|j: int| 0 <= j < i ==> !#[trigger] self.reached@[j],
            decreases self.reached@.len() - i,
        {
            if self.reached[i] {
                return true;
            }
            i = i + 1;
        }
        false
    }

    /// Commits the pending epoch: releases every input.
    fn commit_pending(&mut self) -> (r: u64)
        requires
            old(self).wf(),
            old(self).next_epoch < u64::MAX,
        ensures
            final(self).wf(),
            r == old(self).next_epoch,
            final(self).next_epoch == old(self).next_epoch + 1,
            final(self).commits@ == old(self).commits@.push(r),
            final(self).closed@ == old(self).closed@,
            final(self).reached@.len() == old(self).reached@.len(),
            forall|i: int| 0 <= i < final(self).reached@.len() ==> !#[trigger] final(self).reached@[i],
    {
        let e = self.next_epoch;
        let mut i: usize = 0;
        while i < self.reached.len()
            invariant
                self.reached@.len() == self.closed@.len(),
                self.closed@ == old(self).closed@,
                self.commits@ == old(self).commits@,
                self.next_epoch == old(self).next_epoch,
                e == self.next_epoch,
                self.reached@.len() == old(self).reached@.len(),
                i <= self.reached@.len(),
                forall|j: int| 0 <= j < i ==> !#[trigger] self.reached@[j],
            decreases self.reached@.len() - i,
        {
            self.reached.set(i, false);
            i = i + 1;
        }
        self.next_epoch = e + 1;
        proof {
            self.commits@ = self.commits@.push(e);
        }
        e
    }

    /// Decides what to do with a message just read from input `port`.
    /// An operation is processed. The marker of the pending epoch holds the
    /// input, and commits the epoch once every input has delivered it or has
    /// terminated. A termination closes the input; it commits the pending
    /// epoch when the other inputs were only waiting for this one, and ends
    /// the node when no input is left open. A message on an input that may
    /// not be read, a marker of another epoch, or a marker after the last
    /// epoch number is a violation and changes nothing.
    pub fn on_arrival(&mut self, port: usize, arrival: Arrival) -> (r: Step)
        requires
            old(self).wf(),
            port < old(self).ports(),
        ensures
            final(self).wf(),
            final(self).ports() == old(self).ports(),
            ({
                let reached = old(self).reached();
                let closed = old(self).closed();
                let e = old(self).pending();
                if reached[port as int] || closed[port as int] {
                    r == Step::Violation && *final(self) == *old(self)
                } else {
                    match arrival {
                        Arrival::Op => r == Step::Process && *final(self) == *old(self),
                        Arrival::Marker(id) => if id != e || e == u64::MAX {
                            r == Step::Violation && *final(self) == *old(self)
                        } else if Self::aligned(reached.update(port as int, true), closed) {
                            r == Step::Commit(id) && final(self).pending() == e + 1
                                && final(self).commits() == old(self).commits().push(id)
                                && final(self).closed() == closed
                                && forall|i: int| 0 <= i < reached.len() ==> !#[trigger] final(self).reached()[i]
                        } else {
                            r == Step::Wait && final(self).pending() == e
                                && final(self).commits() == old(self).commits()
                                && final(self).closed() == closed
                                && final(self).reached() == reached.update(port as int, true)
                        },
                        Arrival::Terminate => {
                            let closed2 = closed.update(port as int, true);
                            if Self::all_closed(closed2) {
                                r == Step::Finished && final(self).pending() == e
                                    && final(self).commits() == old(self).commits()
                                    && final(self).closed() == closed2
                                    && final(self).reached() == reached
                            } else if Self::some_reached(reached) && Self::aligned(reached, closed2) && e < u64::MAX {
                                r == Step::Commit(e as u64) && final(self).pending() == e + 1
                                    && final(self).commits() == old(self).commits().push(e as u64)
                                    && final(self).closed() == closed2
                                    && forall|i: int| 0 <= i < reached.len() ==> !#[trigger] final(self).reached()[i]
                            } else {
                                r == Step::Wait && final(self).pending() == e
                                    && final(self).commits() == old(self).commits()
                                    && final(self).closed() == closed2
                                    && final(self).reached() == reached
                            }
                        },
                    }
                }
            }),
    {
        if self.reached[port] || self.closed[port] {
            return Step::Violation;
        }
        match arrival {
            Arrival::Op => Step::Process,
            Arrival::Marker(id) => {
                if id != self.next_epoch || self.next_epoch == u64::MAX {
                    return Step::Violation;
                }
                self.reached.set(port, true);
                if self.is_aligned() {
                    let e = self.commit_pending();
                    Step::Commit(e)
                } else {
                    Step::Wait
                }
            },
            Arrival::Terminate => {
                self.closed.set(port, true);
                if self.is_all_closed() {
                    proof {
                        assert(!self.reached@[port as int]);
                        assert forall|i: int| 0 <= i < self.reached@.len() implies !(#[trigger] self.reached@[i] && self.closed@[i]) by {
                            if i != port {
                                assert(self.reached@[i] == old(self).reached@[i]);
                            }
                        }
                    }
                    Step::Finished
                } else if self.is_some_reached() && self.is_aligned() && self.next_epoch < u64::MAX {
                    let e = self.commit_pending();
                    Step::Commit(e)
                } else {
                    Step::Wait
                }
            },
        }
    }
}

/// Commit order: the epochs a node commits are 0, 1, 2, ... in that order,
/// strictly increasing and without gaps.
pub proof fn lemma_commits_consecutive(a: &InputAligner)
    requires
        a.wf(),
    ensures
        a.commits().len() == a.pending(),
        forall|i: int| 0 <= i < a.commits().len() ==> #[trigger] a.commits()[i] == i,
        forall|i: int, j: int| 0 <= i < j < a.commits().len() ==> #[trigger] a.commits()[i] < #[trigger] a.commits()[j],
{
}

/// Alignment: when the marker of the pending epoch on input `port` makes a
/// node commit, every other open input had already delivered that marker,
/// and no input that had delivered it was open for reading (`can_read` is
/// false on it), so nothing that follows the marker on any input was read.
pub proof fn lemma_commit_aligned(before: &InputAligner, after: &InputAligner, port: usize, e: u64)
    requires
        before.wf(),
        port < before.ports(),
        !before.reached()[port as int] && !before.closed()[port as int],
        e == before.pending(),
        e < u64::MAX,
        InputAligner::aligned(before.reached().update(port as int, true), before.closed()),
    ensures
        forall|i: int| 0 <= i < before.ports() && i != port && !before.closed()[i] ==> #[trigger] before.reached()[i],
        forall|i: int| 0 <= i < before.ports() && before.reached()[i] ==> !#[trigger] before.closed()[i],
{
    assert forall|i: int| 0 <= i < before.ports() && i != port && !before.closed()[i] implies #[trigger] before.reached()[i] by {
        assert(before.reached().update(port as int, true)[i] || before.closed()[i]);
    }
}

/// Decides when the coordinator issues the next epoch: once `interval`
/// milliseconds have passed since the last one, or once `commit_size`
/// messages have been counted since then, whichever comes first.
pub struct EpochClock {
    next_id: u64,
    interval: u64,
    commit_size: u64,
    last_issue: u64,
    count: u64,
}

impl EpochClock {
    pub closed spec fn spec_next_id(&self) -> u64 {
        self.next_id
    }

    pub closed spec fn spec_last_issue(&self) -> u64 {
        self.last_issue
    }

    pub closed spec fn spec_count(&self) -> u64 {
        self.count
    }

    pub closed spec fn spec_interval(&self) -> u64 {
        self.interval
    }

    pub closed spec fn spec_commit_size(&self) -> u64 {
        self.commit_size
    }

    pub fn new(interval: u64, commit_size: u64, now: u64) -> (r: EpochClock)
        ensures
            r.spec_next_id() == 0,
            r.spec_interval() == interval,
            r.spec_commit_size() == commit_size,
            r.spec_last_issue() == now,
            r.spec_count() == 0,
    {
        EpochClock { next_id: 0, interval, commit_size, last_issue: now, count: 0 }
    }

    /// The epoch is due at time `now` after `count` messages.
    pub open spec fn due(&self, now: u64, count: u64) -> bool {
        (now >= self.spec_last_issue() && now - self.spec_last_issue() >= self.spec_interval())
            || count >= self.spec_commit_size()
    }

    /// Counts `messages` new messages at time `now`, and issues the next
    /// epoch number when it is due. Numbers are issued 0, 1, 2, ... and the
    /// clock stops issuing once they run out.
    pub fn tick(&mut self, now: u64, messages: u64) -> (r: Option<u64>)
        ensures
            final(self).spec_interval() == old(self).spec_interval(),
            final(self).spec_commit_size() == old(self).spec_commit_size(),
            ({
                let count = if old(self).spec_count() + messages > u64::MAX {
                    u64::MAX
                } else {
                    (old(self).spec_count() + messages) as u64
                };
                if old(self).due(now, count) && old(self).spec_next_id() < u64::MAX {
                    r == Some(old(self).spec_next_id())
                        && final(self).spec_next_id() == old(self).spec_next_id() + 1
                        && final(self).spec_last_issue() == now
                        && final(self).spec_count() == 0
                } else {
                    r is None
                        && final(self).spec_next_id() == old(self).spec_next_id()
                        && final(self).spec_last_issue() == old(self).spec_last_issue()
                        && final(self).spec_count() == count
                }
            }),
    {
        self.count = self.count.saturating_add(messages);
        let elapsed = now >= self.last_issue && now - self.last_issue >= self.interval;
        if (elapsed || self.count >= self.commit_size) && self.next_id < u64::MAX {
            let id = self.next_id;
            self.next_id = id + 1;
            self.last_issue = now;
            self.count = 0;
            Some(id)
        } else {
            None
        }
    }
}

} // verus!
