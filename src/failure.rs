use vstd::prelude::*;
use crate::dag::DagError;
use crate::types::{NodeHandle, PortHandle};

verus! {

/// What stops a graph from being built or a run from finishing.
#[derive(Debug, Clone, PartialEq, Eq)]
pub enum ExecutionError {
    /// The graph is malformed.
    Graph(DagError),
    /// A factory could not give the schema of an output port.
    SchemaError { node: NodeHandle, port: PortHandle, cause: String },
    /// A factory could not build its operator.
    FactoryBuildError { node: NodeHandle, cause: String },
    /// An operator returned an error while handling a message.
    OperatorError { node: NodeHandle, port: Option<PortHandle>, cause: String },
    /// An operator panicked.
    OperatorPanic { node: NodeHandle, payload: String },
    /// An operator failed to commit an epoch.
    EpochCommitError { node: NodeHandle, epoch: u64, cause: String },
    /// An input broke the epoch marker protocol.
    MarkerViolation { node: NodeHandle, port: PortHandle },
    /// The options cannot run a graph.
    InvalidOptions,
    /// The run was cancelled from outside before it finished.
    Cancelled,
    /// No message could move although some node had not finished.
    Deadlock,
}

/// The state shared by all workers of one run: whether the run goes on, and
/// the first error that any worker reported. Errors reported after the first
/// are dropped.
pub struct RunState<E> {
    running: bool,
    first: Option<E>,
    reports: Ghost<Seq<E>>,
}

impl<E> RunState<E> {
    pub closed spec fn is_running(&self) -> bool {
        self.running
    }

    pub closed spec fn first(&self) -> Option<E> {
        self.first
    }

    /// Every error reported so far, in the order it was reported.
    pub closed spec fn reports(&self) -> Seq<E> {
        self.reports@
    }

    pub closed spec fn wf(&self) -> bool {
        &&& self.first == if self.reports@.len() == 0 { None } else { Some(self.reports@[0]) }
        &&& self.reports@.len() > 0 ==> !self.running
    }

    pub fn new() -> (r: RunState<E>)
        ensures
            r.wf(),
            r.is_running(),
            r.first() is None,
            r.reports() == Seq::<E>::empty(),
    {
        RunState { running: true, first: None, reports: Ghost(Seq::empty()) }
    }

    pub fn running(&self) -> (r: bool)
        ensures
            r == self.is_running(),
    {
        self.running
    }

    /// Stops the run without an error.
    pub fn cancel(&mut self)
        requires
            old(self).wf(),
        ensures
            final(self).wf(),
            !final(self).is_running(),
            final(self).first() == old(self).first(),
            final(self).reports() == old(self).reports(),
    {
        self.running = false;
    }

    /// Reports an error: stops the run, and keeps `e` only when no error was
    /// kept before. Returns whether `e` was kept.
    pub fn fail(&mut self, e: E) -> (r: bool)
        requires
            old(self).wf(),
        ensures
            final(self).wf(),
            !final(self).is_running(),
            final(self).reports() == old(self).reports().push(e),
            r == old(self).first() is None,
            final(self).first() == if r { Some(e) } else { old(self).first() },
    {
        self.running = false;
        let kept = self.first.is_none();
        proof {
            self.reports@ = self.reports@.push(e);
        }
        if kept {
            self.first = Some(e);
        }
        kept
    }

    /// Ends the run and gives back the first error, if any.
    pub fn into_first(self) -> (r: Option<E>)
        ensures
            r == self.first(),
    {
        self.first
    }
}

/// First error wins: however many errors were reported, and in whatever
/// order, the one kept is the first reported, and the run is stopped.
pub proof fn lemma_first_error_wins<E>(s: &RunState<E>)
    requires
        s.wf(),
    ensures
        s.reports().len() > 0 ==> s.first() == Some(s.reports()[0]) && !s.is_running(),
        s.reports().len() == 0 ==> s.first() is None,
{
}

} // verus!
