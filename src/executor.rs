use vstd::prelude::*;
use std::collections::VecDeque;
use crate::channel::BoundedQueue;
use crate::dag::{Dag, NodeKind};
use crate::epoch::{Arrival, Epoch, EpochClock, InputAligner, SourceState, Step};
use crate::failure::{lemma_first_error_wins, ExecutionError, RunState};
use crate::topology::is_topological;
use crate::types::{IngestionMessage, IngestionMessageKind, NodeHandle, Operation, PortHandle};

verus! {

/// What travels on an edge.
#[derive(Debug, Clone)]
pub enum ExecutorMessage {
    Op(Operation),
    SnapshottingDone(String),
    Marker(Epoch),
    Terminate,
}

/// The recognised options of a run.
#[derive(Debug, Clone, Copy, PartialEq, Eq, Structural)]
pub struct ExecutorOptions {
    /// Capacity of the queue of each edge.
    pub channel_buffer_size: usize,
    /// Number of source messages after which an epoch is issued.
    pub commit_sz: u64,
    /// Milliseconds after which an epoch is issued.
    pub commit_time_threshold: u64,
    /// Advisory bound for the state maps of stateful operators.
    pub max_map_size: usize,
}

impl Default for ExecutorOptions {
    fn default() -> (r: ExecutorOptions)
        ensures
            r.channel_buffer_size == 20_000,
            r.commit_sz == 10_000,
            r.commit_time_threshold == 50,
            r.max_map_size == 1_073_741_824,
    {
        ExecutorOptions {
            channel_buffer_size: 20_000,
            commit_sz: 10_000,
            commit_time_threshold: 50,
            max_map_size: 1_073_741_824,
        }
    }
}

/// An operator with no inputs. Each call yields its next message and the
/// output port it goes to, `None` once the source is exhausted, or an error.
pub trait Source {
    fn next(&mut self) -> Result<Option<(PortHandle, IngestionMessage)>, String>;
}

/// An operator with inputs and outputs. `process` appends what it emits, with
/// the output port of each, to `fw`.
pub trait Processor {
    fn process(&mut self, from_port: PortHandle, op: Operation, fw: &mut Vec<(PortHandle, Operation)>) -> Result<(), String>;

    fn commit(&mut self, epoch: &Epoch) -> Result<(), String>;
}

/// An operator with inputs only.
pub trait Sink {
    fn process(&mut self, from_port: PortHandle, op: Operation) -> Result<(), String>;

    fn commit(&mut self, epoch: &Epoch) -> Result<(), String>;

    fn on_source_snapshotting_done(&mut self, connection_name: String) -> Result<(), String>;
}

/// The operator instance of one node.
pub enum NodeOperator<S, P, K> {
    Source(S),
    Processor(P),
    Sink(K),
}

pub open spec fn kind_of<S, P, K>(op: NodeOperator<S, P, K>) -> NodeKind {
    match op {
        NodeOperator::Source(_) => NodeKind::Source,
        NodeOperator::Processor(_) => NodeKind::Processor,
        NodeOperator::Sink(_) => NodeKind::Sink,
    }
}

fn operator_kind<S, P, K>(op: &NodeOperator<S, P, K>) -> (r: NodeKind)
    ensures
        r == kind_of(*op),
{
    match op {
        NodeOperator::Source(_) => NodeKind::Source,
        NodeOperator::Processor(_) => NodeKind::Processor,
        NodeOperator::Sink(_) => NodeKind::Sink,
    }
}

/// A validated graph with one operator per node, ready to run.
pub struct DagExecutor<S, P, K> {
    dag: Dag,
    order: Vec<usize>,
    operators: Vec<NodeOperator<S, P, K>>,
    options: ExecutorOptions,
}

impl<S: Source, P: Processor, K: Sink> DagExecutor<S, P, K> {
    pub closed spec fn spec_dag(&self) -> &Dag {
        &self.dag
    }

    pub closed spec fn wf(&self) -> bool {
        &&& self.dag.wf()
        &&& is_topological(self.order@, self.dag.nodes@.len(), self.dag.edges@)
        &&& self.operators@.len() == self.dag.nodes@.len()
        &&& self.options.channel_buffer_size > 0
    }

    /// Builds an executor: `operators[i]` runs node `i` of the graph. Fails
    /// when the queues would have no room, when an operator is not of its
    /// node's kind or is missing, or when the graph does not validate.
    pub fn new(dag: Dag, operators: Vec<NodeOperator<S, P, K>>, options: ExecutorOptions) -> (r: Result<DagExecutor<S, P, K>, ExecutionError>)
        ensures
            !dag.wf() ==> r == Err::<DagExecutor<S, P, K>, ExecutionError>(ExecutionError::Graph(crate::dag::DagError::Malformed)),
            dag.wf() && options.channel_buffer_size == 0 ==> r == Err::<DagExecutor<S, P, K>, ExecutionError>(ExecutionError::InvalidOptions),
            dag.wf() && options.channel_buffer_size > 0 && operators@.len() != dag.nodes@.len() ==> r == Err::<DagExecutor<S, P, K>, ExecutionError>(ExecutionError::InvalidOptions),
            dag.wf() && options.channel_buffer_size > 0 && operators@.len() == dag.nodes@.len()
                && (exists|i: int| 0 <= i < operators@.len() && kind_of(#[trigger] operators@[i]) != dag.nodes@[i].kind)
                ==> r is Err && r->Err_0 is FactoryBuildError,
            dag.wf() && options.channel_buffer_size > 0 && operators@.len() == dag.nodes@.len()
                && (forall|i: int| 0 <= i < operators@.len() ==> kind_of(#[trigger] operators@[i]) == dag.nodes@[i].kind)
                ==> match r {
                    Ok(x) => x.wf() && dag.inputs_connected() && dag.sources_connected() && x.spec_dag() == dag,
                    Err(e) => (!dag.inputs_connected() && e == ExecutionError::Graph(crate::dag::DagError::MissingInputEdge))
                        || (dag.inputs_connected() && !dag.sources_connected() && e == ExecutionError::Graph(crate::dag::DagError::MissingOutputEdge)),
                },
    {
        if !dag.is_well_formed() {
            return Err(ExecutionError::Graph(crate::dag::DagError::Malformed));
        }
        if options.channel_buffer_size == 0 || operators.len() != dag.nodes.len() {
            return Err(ExecutionError::InvalidOptions);
        }
        let mut i: usize = 0;
        while i < operators.len()
            invariant
                i <= operators@.len(),
                options.channel_buffer_size > 0,
                dag.wf(),
                operators@.len() == dag.nodes@.len(),
                forall|j: int| 0 <= j < i ==> kind_of(#[trigger] operators@[j]) == dag.nodes@[j].kind,
            decreases operators@.len() - i,
        {
            if operator_kind(&operators[i]) != dag.nodes[i].kind {
                return Err(ExecutionError::FactoryBuildError {
                    node: dag.nodes[i].handle.duplicate(),
                    cause: String::from_str("operator kind does not match the node"),
                });
            }
            i = i + 1;
        }
        match dag.validate() {
            Err(e) => Err(ExecutionError::Graph(e)),
            Ok(order) => Ok(DagExecutor { dag, order, operators, options }),
        }
    }

    /// Runs the graph until every node has finished, an operator fails, or
    /// no message can move any more, and returns the first error reported.
    /// Nodes take turns in topological order within the calling thread, so
    /// epochs are issued by message count alone; a panic of an operator
    /// reaches the caller unchanged. A graph without nodes succeeds.
    pub fn join(self) -> (r: Result<(), ExecutionError>)
        requires
            self.wf(),
        ensures
            self.spec_dag().nodes@.len() == 0 ==> r is Ok,
    {
        let (r, _reports) = self.join_traced();
        r
    }

    /// `join`, with every error reported during the run, in the order the
    /// workers reported them. The result is the first of them; `Deadlock`
    /// when none was reported yet the nodes did not all finish; success only
    /// when nothing was reported.
    pub fn join_traced(self) -> (r: (Result<(), ExecutionError>, Ghost<Seq<ExecutionError>>))
        requires
            self.wf(),
        ensures
            r.0 matches Err(e) ==> (r.1@.len() > 0 && e == r.1@[0]) || (r.1@.len() == 0 && e is Deadlock),
            r.0 is Ok ==> r.1@.len() == 0,
            self.spec_dag().nodes@.len() == 0 ==> r.0 is Ok,
    {
        let DagExecutor { dag, order, operators, options } = self;
        let n = dag.nodes.len();
        let m = dag.edges.len();
        let mut handles: Vec<NodeHandle> = Vec::new();
        let mut in_edges: Vec<Vec<usize>> = Vec::new();
        let mut out_edges: Vec<Vec<usize>> = Vec::new();
        let mut pending: Vec<VecDeque<(usize, ExecutorMessage)>> = Vec::new();
        let mut markers: Vec<Option<Epoch>> = Vec::new();
        let mut done: Vec<bool> = Vec::new();
        let mut cursor: Vec<usize> = Vec::new();
        let mut i: usize = 0;
        while i < n
            invariant
                n == dag.nodes@.len(),
                i <= n,
                handles@.len() == i,
                in_edges@.len() == i,
                out_edges@.len() == i,
                pending@.len() == i,
                markers@.len() == i,
                done@.len() == i,
                cursor@.len() == i,
                forall|x: int| 0 <= x < i ==> (#[trigger] in_edges@[x])@.len() == 0,
                forall|x: int| 0 <= x < i ==> (#[trigger] out_edges@[x])@.len() == 0,
                forall|x: int| 0 <= x < i ==> (#[trigger] pending@[x])@.len() == 0,
            decreases n - i,
        {
            handles.push(dag.nodes[i].handle.duplicate());
            in_edges.push(Vec::new());
            out_edges.push(Vec::new());
            pending.push(VecDeque::new());
            markers.push(None);
            done.push(false);
            cursor.push(0);
            i = i + 1;
        }
        let mut src_port: Vec<PortHandle> = Vec::new();
        let mut dst_port: Vec<PortHandle> = Vec::new();
        let mut queues: Vec<BoundedQueue<ExecutorMessage>> = Vec::new();
        let mut k: usize = 0;
        while k < m
            invariant
                dag.wf(),
                n == dag.nodes@.len(),
                m == dag.edges@.len(),
                options.channel_buffer_size > 0,
                k <= m,
                in_edges@.len() == n,
                out_edges@.len() == n,
                src_port@.len() == k,
                dst_port@.len() == k,
                queues@.len() == k,
                forall|x: int| 0 <= x < k ==> (#[trigger] queues@[x]).wf(),
                forall|x: int, y: int| 0 <= x < n && 0 <= y < in_edges@[x]@.len() ==> #[trigger] in_edges@[x]@[y] < k,
                forall|x: int, y: int| 0 <= x < n && 0 <= y < out_edges@[x]@.len() ==> #[trigger] out_edges@[x]@[y] < k,
            decreases m - k,
        {
            let e = dag.edges[k];
            assert(e == dag.edges@[k as int]);
            let ghost before_in = in_edges@;
            let ghost before_out = out_edges@;
            in_edges[e.dst].push(k);
            out_edges[e.src].push(k);
            assert forall|x: int, y: int| 0 <= x < n && 0 <= y < in_edges@[x]@.len() implies #[trigger] in_edges@[x]@[y] < k + 1 by {
                if x != e.dst {
                    assert(in_edges@[x] == before_in[x]);
                } else if y < before_in[x]@.len() {
                    assert(in_edges@[x]@[y] == before_in[x]@[y]);
                }
            }
            assert forall|x: int, y: int| 0 <= x < n && 0 <= y < out_edges@[x]@.len() implies #[trigger] out_edges@[x]@[y] < k + 1 by {
                if x != e.src {
                    assert(out_edges@[x] == before_out[x]);
                } else if y < before_out[x]@.len() {
                    assert(out_edges@[x]@[y] == before_out[x]@[y]);
                }
            }
            src_port.push(e.src_port);
            dst_port.push(e.dst_port);
            queues.push(BoundedQueue::new(options.channel_buffer_size));
            k = k + 1;
        }
        let mut aligners: Vec<InputAligner> = Vec::new();
        let mut i: usize = 0;
        while i < n
            invariant
                i <= n,
                in_edges@.len() == n,
                aligners@.len() == i,
                forall|x: int| 0 <= x < i ==> (#[trigger] aligners@[x]).wf() && aligners@[x].ports() == in_edges@[x]@.len(),
            decreases n - i,
        {
            aligners.push(InputAligner::new(in_edges[i].len()));
            i = i + 1;
        }
        let mut run = Run {
            handles,
            operators,
            order,
            in_edges,
            out_edges,
            src_port,
            dst_port,
            queues,
            aligners,
            pending,
            markers,
            done,
            cursor,
            details: Vec::new(),
            clock: EpochClock::new(u64::MAX, options.commit_sz, 0),
            state: RunState::new(),
        };
        assert(forall|x: int| 0 <= x < run.order@.len() ==> #[trigger] run.order@[x] < n);
        assert(run.handles@.len() == n);
        let mut budget: u64 = u64::MAX;
        while budget > 0
            invariant
                run.wf(),
                run.handles@.len() == n,
                n == dag.nodes@.len(),
                n == 0 ==> run.state.reports().len() == 0,
            decreases budget,
        {
            budget = budget - 1;
            if !run.state.running() || run.all_done() {
                break;
            }
            if !run.round() {
                run.state.fail(ExecutionError::Deadlock);
            }
        }
        let finished = run.all_done();
        let ghost reports = run.state.reports();
        proof {
            lemma_first_error_wins(&run.state);
        }
        let r = match run.state.into_first() {
            Some(e) => Err(e),
            None => if finished { Ok(()) } else { Err(ExecutionError::Deadlock) },
        };
        (r, Ghost(reports))
    }
}

proof fn lemma_emitted_refl<S: Source, P: Processor, K: Sink>(a: &Run<S, P, K>, node: usize)
    ensures
        a.emitted_since(a, node, None),
{
    assert(a.pending@[node as int]@.take(a.pending@[node as int]@.len() as int) =~= a.pending@[node as int]@);
}

proof fn lemma_emitted_chain<S: Source, P: Processor, K: Sink>(
    a: &Run<S, P, K>, b: &Run<S, P, K>, c: &Run<S, P, K>, node: usize, port: Option<PortHandle>)
    requires
        b.emitted_since(a, node, None),
        c.emitted_since(b, node, port),
        b.same_shape(a),
        c.same_shape(b),
        a.pending@.len() == b.pending@.len(),
        b.pending@.len() == c.pending@.len(),
        node < a.pending@.len(),
    ensures
        c.emitted_since(a, node, None),
{
    let n0 = a.pending@[node as int]@.len() as int;
    let pb = b.pending@[node as int]@;
    let pc = c.pending@[node as int]@;
    assert(pc.take(n0) =~= pb.take(n0)) by {
        assert(pc.take(pb.len() as int) == pb);
    }
    assert forall|k: int| n0 <= k < pc.len() implies c.leaves_on(node, None, (#[trigger] pc[k]).0) by {
        if k < pb.len() {
            assert(pc.take(pb.len() as int)[k] == pb[k]);
            assert(b.leaves_on(node, None, pb[k].0));
        } else {
            assert(c.leaves_on(node, port, pc[k].0));
        }
    }
    assert forall|i: int| 0 <= i < c.pending@.len() && i != node implies #[trigger] c.pending@[i]@ == a.pending@[i]@ by {
        assert(b.pending@[i]@ == a.pending@[i]@);
    }
}

proof fn lemma_emitted_trans<S: Source, P: Processor, K: Sink>(
    a: &Run<S, P, K>, b: &Run<S, P, K>, c: &Run<S, P, K>, node: usize, port: Option<PortHandle>, e: usize)
    requires
        b.emitted_since(a, node, port),
        b.same_shape(a),
        c.same_shape(b),
        node < a.pending@.len(),
        a.pending@.len() == b.pending@.len(),
        c.state == b.state,
        c.pending@.len() == b.pending@.len(),
        c.pending@[node as int]@ == b.pending@[node as int]@.push(c.pending@[node as int]@.last()),
        c.pending@[node as int]@.last().0 == e,
        b.leaves_on(node, port, e),
        forall|i: int| 0 <= i < c.pending@.len() && i != node ==> #[trigger] c.pending@[i]@ == b.pending@[i]@,
    ensures
        c.emitted_since(a, node, port),
{
    let n0 = a.pending@[node as int]@.len() as int;
    let pb = b.pending@[node as int]@;
    let pc = c.pending@[node as int]@;
    assert(pc.take(n0) =~= pb.take(n0));
    assert forall|k: int| n0 <= k < pc.len() implies c.leaves_on(node, port, (#[trigger] pc[k]).0) by {
        if k < pb.len() {
            assert(pc[k] == pb[k]);
        }
    }
    assert forall|i: int| 0 <= i < c.pending@.len() && i != node implies #[trigger] c.pending@[i]@ == a.pending@[i]@ by {
        assert(b.pending@[i]@ == a.pending@[i]@);
    }
}

/// How many messages a processor or sink reads in one turn.
const BATCH: usize = 64;

/// The state of one run: the queue of each edge, the epoch aligner of each
/// node, the messages each node has emitted but not yet placed in a queue,
/// and the shared run state.
struct Run<S, P, K> {
    handles: Vec<NodeHandle>,
    operators: Vec<NodeOperator<S, P, K>>,
    order: Vec<usize>,
    in_edges: Vec<Vec<usize>>,
    out_edges: Vec<Vec<usize>>,
    src_port: Vec<PortHandle>,
    dst_port: Vec<PortHandle>,
    queues: Vec<BoundedQueue<ExecutorMessage>>,
    aligners: Vec<InputAligner>,
    pending: Vec<VecDeque<(usize, ExecutorMessage)>>,
    markers: Vec<Option<Epoch>>,
    done: Vec<bool>,
    cursor: Vec<usize>,
    details: Vec<SourceState>,
    clock: EpochClock,
    state: RunState<ExecutionError>,
}

impl<S: Source, P: Processor, K: Sink> Run<S, P, K> {
    spec fn wf(&self) -> bool {
        let n = self.handles@.len();
        let m = self.queues@.len();
        &&& self.operators@.len() == n
        &&& self.in_edges@.len() == n
        &&& self.out_edges@.len() == n
        &&& self.aligners@.len() == n
        &&& self.pending@.len() == n
        &&& self.markers@.len() == n
        &&& self.done@.len() == n
        &&& self.cursor@.len() == n
        &&& self.src_port@.len() == m
        &&& self.dst_port@.len() == m
        &&& forall|i: int| 0 <= i < self.order@.len() ==> #[trigger] self.order@[i] < n
        &&& forall|i: int, j: int| 0 <= i < n && 0 <= j < self.in_edges@[i]@.len() ==> #[trigger] self.in_edges@[i]@[j] < m
        &&& forall|i: int, j: int| 0 <= i < n && 0 <= j < self.out_edges@[i]@.len() ==> #[trigger] self.out_edges@[i]@[j] < m
        &&& forall|i: int| 0 <= i < n ==> (#[trigger] self.aligners@[i]).wf() && self.aligners@[i].ports() == self.in_edges@[i]@.len()
        &&& forall|e: int| 0 <= e < m ==> (#[trigger] self.queues@[e]).wf()
        &&& forall|i: int, j: int| 0 <= i < n && 0 <= j < self.pending@[i]@.len() ==> (#[trigger] self.pending@[i]@[j]).0 < m
        &&& self.state.wf()
    }

    spec fn same_shape(&self, other: &Self) -> bool {
        &&& self.handles@ == other.handles@
        &&& self.queues@.len() == other.queues@.len()
        &&& self.order@ == other.order@
        &&& self.in_edges@ == other.in_edges@
        &&& self.out_edges@ == other.out_edges@
        &&& self.src_port@ == other.src_port@
        &&& self.dst_port@ == other.dst_port@
    }

    /// Edge `e` leaves `node`, from output `port` when one is given.
    spec fn leaves_on(&self, node: usize, port: Option<PortHandle>, e: usize) -> bool {
        &&& self.out_edges@[node as int]@.contains(e)
        &&& (port matches Some(p) ==> self.src_port@[e as int] == p)
    }

    /// From `old` to `self`, only what `node` has emitted changed: the run
    /// state and every other node's emissions are as they were, and
    /// `node`'s emissions were extended by entries on its outgoing edges
    /// that leave `port`.
    spec fn emitted_since(&self, old: &Self, node: usize, port: Option<PortHandle>) -> bool {
        &&& self.state == old.state
        &&& forall|i: int| 0 <= i < self.pending@.len() && i != node ==> #[trigger] self.pending@[i]@ == old.pending@[i]@
        &&& old.pending@[node as int]@.len() <= self.pending@[node as int]@.len()
        &&& self.pending@[node as int]@.take(old.pending@[node as int]@.len() as int) == old.pending@[node as int]@
        &&& forall|k: int| old.pending@[node as int]@.len() <= k < self.pending@[node as int]@.len()
            ==> self.leaves_on(node, port, (#[trigger] self.pending@[node as int]@[k]).0)
    }

    /// Queues `msg` behind what `node` has already emitted, once for each of
    /// its outgoing edges that leaves `port` (every edge when `port` is `None`).
    fn emit(&mut self, node: usize, port: Option<PortHandle>, msg: ExecutorMessage)
        requires
            old(self).wf(),
            node < old(self).handles@.len(),
        ensures
            final(self).wf(),
            final(self).same_shape(old(self)),
            final(self).emitted_since(old(self), node, port),
    {
        let mut targets: Vec<usize> = Vec::new();
        let mut j: usize = 0;
        while j < self.out_edges[node].len()
            invariant
                self.wf(),
                node < self.handles@.len(),
                j <= self.out_edges@[node as int]@.len(),
                *self == *old(self),
                forall|x: int| 0 <= x < targets@.len() ==> #[trigger] targets@[x] < self.queues@.len()
                    && self.leaves_on(node, port, targets@[x]),
            decreases self.out_edges@[node as int]@.len() - j,
        {
            let e = self.out_edges[node][j];
            let keep = match port {
                Some(p) => self.src_port[e] == p,
                None => true,
            };
            if keep {
                assert(self.out_edges@[node as int]@[j as int] == e);
                targets.push(e);
            }
            j = j + 1;
        }
        let ghost m = self.queues@.len();
        let ghost all_targets = targets@;
        let last = match targets.pop() {
            Some(last) => last,
            None => {
                assert(self.pending@[node as int]@.take(self.pending@[node as int]@.len() as int) =~= self.pending@[node as int]@);
                return;
            },
        };
        assert(all_targets[all_targets.len() - 1] == last);
        assert(self.pending@[node as int]@.take(self.pending@[node as int]@.len() as int) =~= self.pending@[node as int]@);
        let mut j: usize = 0;
        while j < targets.len()
            invariant
                self.wf(),
                self.same_shape(old(self)),
                m == self.queues@.len(),
                node < self.handles@.len(),
                j <= targets@.len(),
                last < m,
                self.leaves_on(node, port, last),
                node < old(self).pending@.len(),
                old(self).pending@.len() == self.pending@.len(),
                forall|x: int| 0 <= x < targets@.len() ==> #[trigger] targets@[x] < m
                    && self.leaves_on(node, port, targets@[x]),
                self.emitted_since(old(self), node, port),
            decreases targets@.len() - j,
        {
            let e = targets[j];
            let copy = msg.clone();
            let ghost mid = *self;
            self.push_pending(node, e, copy);
            proof {
                lemma_emitted_trans(old(self), &mid, self, node, port, e);
            }
            j = j + 1;
        }
        let ghost mid = *self;
        self.push_pending(node, last, msg);
        proof {
            lemma_emitted_trans(old(self), &mid, self, node, port, last);
        }
    }

    fn push_pending(&mut self, node: usize, e: usize, msg: ExecutorMessage)
        requires
            old(self).wf(),
            node < old(self).handles@.len(),
            e < old(self).queues@.len(),
        ensures
            final(self).wf(),
            final(self).same_shape(old(self)),
            final(self).state == old(self).state,
            final(self).pending@.len() == old(self).pending@.len(),
            final(self).pending@[node as int]@ == old(self).pending@[node as int]@.push((e, msg)),
            forall|i: int| 0 <= i < final(self).pending@.len() && i != node ==> #[trigger] final(self).pending@[i]@ == old(self).pending@[i]@,
    {
        let ghost m = self.queues@.len();
        let ghost before = self.pending@;
        self.pending[node].push_back((e, msg));
        assert forall|i: int, k: int| 0 <= i < self.handles@.len() && 0 <= k < self.pending@[i]@.len()
            implies (#[trigger] self.pending@[i]@[k]).0 < m by {
            if i != node {
                assert(self.pending@[i] == before[i]);
            } else if k < before[i]@.len() {
                assert(self.pending@[i]@[k] == before[i]@[k]);
            }
        }
    }

    /// Moves what `node` has emitted into the queues, oldest first, until a
    /// queue is full. Returns whether anything moved.
    fn flush(&mut self, node: usize) -> (r: bool)
        requires
            old(self).wf(),
            node < old(self).handles@.len(),
        ensures
            final(self).wf(),
            final(self).same_shape(old(self)),
            final(self).state == old(self).state,
    {
        let ghost m = self.queues@.len();
        let mut moved = false;
        loop
            invariant
                self.wf(),
                self.same_shape(old(self)),
                m == self.queues@.len(),
                node < self.handles@.len(),
            self.state == old(self).state,
            decreases self.pending@[node as int]@.len(),
        {
            let ghost before = self.pending@;
            match self.pending[node].pop_front() {
                None => {
                    return moved;
                },
                Some(item) => {
                    let e = item.0;
                    assert(before[node as int]@[0] == item);
                    if self.queues[e].is_full() {
                        self.pending[node].push_front(item);
                        assert(self.pending@[node as int]@ =~= before[node as int]@);
                        assert forall|i: int, k: int| 0 <= i < self.handles@.len() && 0 <= k < self.pending@[i]@.len()
                            implies (#[trigger] self.pending@[i]@[k]).0 < m by {
                            if i != node {
                                assert(self.pending@[i] == before[i]);
                            } else {
                                assert(self.pending@[i]@[k] == before[i]@[k]);
                            }
                        }
                        return moved;
                    }
                    assert forall|i: int, k: int| 0 <= i < self.handles@.len() && 0 <= k < self.pending@[i]@.len()
                        implies (#[trigger] self.pending@[i]@[k]).0 < m by {
                        if i != node {
                            assert(self.pending@[i] == before[i]);
                        } else {
                            assert(self.pending@[i]@[k] == before[i]@[k + 1]);
                        }
                    }
                    let _ = self.queues[e].try_send(item.1);
                    moved = true;
                },
            }
        }
    }

    /// Records that source `node` has emitted message `(txid, seq_in_tx)`.
    fn note_progress(&mut self, node: usize, txid: u64, seq_in_tx: u64)
        requires
            old(self).wf(),
        ensures
            final(self).wf(),
            final(self).same_shape(old(self)),
            final(self).state == old(self).state,
    {
        let mut j: usize = 0;
        while j < self.details.len()
            invariant
                self.wf(),
                self.same_shape(old(self)),
                j <= self.details@.len(),
            self.state == old(self).state,
            decreases self.details@.len() - j,
        {
            if self.details[j].source == node {
                self.details.set(j, SourceState { source: node, txid, seq_in_tx });
                return;
            }
            j = j + 1;
        }
        self.details.push(SourceState { source: node, txid, seq_in_tx });
    }

    /// Sends the marker of epoch `id` down every source that is still running.
    fn issue_epoch(&mut self, id: u64)
        requires
            old(self).wf(),
        ensures
            final(self).wf(),
            final(self).same_shape(old(self)),
            final(self).state == old(self).state,
    {
        let mut i: usize = 0;
        while i < self.handles.len()
            invariant
                self.wf(),
                self.same_shape(old(self)),
                self.state == old(self).state,
                i <= self.handles@.len(),
            decreases self.handles@.len() - i,
        {
            let is_source = match &self.operators[i] {
                NodeOperator::Source(_) => true,
                _ => false,
            };
            if is_source && !self.done[i] {
                let epoch = Epoch { id, details: self.details.clone() };
                self.emit(i, None, ExecutorMessage::Marker(epoch));
            }
            i = i + 1;
        }
    }

    /// Pulls the next message of source `node`. Returns whether it moved.
    /// An error of the source is reported as an `OperatorError` of the node
    /// with no port; nothing else is reported.
    fn step_source(&mut self, node: usize) -> (r: bool)
        requires
            old(self).wf(),
            node < old(self).handles@.len(),
        ensures
            final(self).wf(),
            final(self).same_shape(old(self)),
            final(self).state.reports() == old(self).state.reports()
                || exists|cause: String| final(self).state.reports() == old(self).state.reports().push(
                    ExecutionError::OperatorError { node: old(self).handles@[node as int], port: None, cause }),
    {
        let moved = self.flush(node);
        if self.done[node] || self.pending[node].len() > 0 {
            return moved;
        }
        let pulled = match &mut self.operators[node] {
            NodeOperator::Source(src) => src.next(),
            _ => Ok(None),
        };
        match pulled {
            Err(cause) => {
                let node_handle = self.handles[node].duplicate();
                self.state.fail(ExecutionError::OperatorError { node: node_handle, port: None, cause });
            },
            Ok(None) => {
                self.emit(node, None, ExecutorMessage::Terminate);
                self.done.set(node, true);
            },
            Ok(Some((port, msg))) => {
                self.note_progress(node, msg.txid, msg.seq_in_tx);
                match msg.kind {
                    IngestionMessageKind::OperationEvent(op) => self.emit(node, Some(port), ExecutorMessage::Op(op)),
                    IngestionMessageKind::SnapshottingDone { connection_name } =>
                        self.emit(node, Some(port), ExecutorMessage::SnapshottingDone(connection_name)),
                }
                if let Some(id) = self.clock.tick(0, 1) {
                    self.issue_epoch(id);
                }
            },
        }
        self.flush(node);
        true
    }

    /// Hands the operation `op`, read from input `port`, to the operator of `node`.
    /// An error of the operator is reported as an `OperatorError` of the
    /// node and input port, and nothing is emitted; otherwise nothing is
    /// reported and what the operator emitted is queued, after what the node
    /// emitted before, on its outgoing edges from the ports it named.
    fn deliver(&mut self, node: usize, port: PortHandle, op: Operation)
        requires
            old(self).wf(),
            node < old(self).handles@.len(),
        ensures
            final(self).wf(),
            final(self).same_shape(old(self)),
            (exists|cause: String| final(self).state.reports() == old(self).state.reports().push(
                ExecutionError::OperatorError { node: old(self).handles@[node as int], port: Some(port), cause }))
                || final(self).emitted_since(old(self), node, None),
    {
        let mut out: Vec<(PortHandle, Operation)> = Vec::new();
        let res = match &mut self.operators[node] {
            NodeOperator::Processor(p) => p.process(port, op, &mut out),
            NodeOperator::Sink(k) => k.process(port, op),
            NodeOperator::Source(_) => Ok(()),
        };
        match res {
            Err(cause) => {
                let node_handle = self.handles[node].duplicate();
                self.state.fail(ExecutionError::OperatorError { node: node_handle, port: Some(port), cause });
            },
            Ok(()) => {
                let mut rest = out;
                proof {
                    lemma_emitted_refl(self, node);
                }
                while rest.len() > 0
                    invariant
                        self.wf(),
                        self.same_shape(old(self)),
                        node < self.handles@.len(),
                        self.emitted_since(old(self), node, None),
                        self.pending@.len() == old(self).pending@.len(),
                    decreases rest@.len(),
                {
                    let (p, o) = rest.remove(0);
                    let ghost mid = *self;
                    self.emit(node, Some(p), ExecutorMessage::Op(o));
                    proof {
                        lemma_emitted_chain(old(self), &mid, self, node, Some(p));
                    }
                }
            },
        }
    }

    /// Commits `epoch` at `node`; a processor then forwards its marker.
    /// A failed commit is reported as an `EpochCommitError` of the node and
    /// epoch; otherwise nothing is reported and a processor's marker is
    /// queued on its outgoing edges.
    fn commit_at(&mut self, node: usize, epoch: Epoch)
        requires
            old(self).wf(),
            node < old(self).handles@.len(),
        ensures
            final(self).wf(),
            final(self).same_shape(old(self)),
            (exists|cause: String| final(self).state.reports() == old(self).state.reports().push(
                ExecutionError::EpochCommitError { node: old(self).handles@[node as int], epoch: epoch.id, cause }))
                || final(self).emitted_since(old(self), node, None),
    {
        let res = match &mut self.operators[node] {
            NodeOperator::Processor(p) => p.commit(&epoch),
            NodeOperator::Sink(k) => k.commit(&epoch),
            NodeOperator::Source(_) => Ok(()),
        };
        match res {
            Err(cause) => {
                let node_handle = self.handles[node].duplicate();
                self.state.fail(ExecutionError::EpochCommitError { node: node_handle, epoch: epoch.id, cause });
            },
            Ok(()) => {
                let forwards = match &self.operators[node] {
                    NodeOperator::Processor(_) => true,
                    _ => false,
                };
                proof {
                    lemma_emitted_refl(self, node);
                }
                if forwards {
                    self.emit(node, None, ExecutorMessage::Marker(epoch));
                }
            },
        }
    }

    /// Handles a notification that a source finished its backfill: a sink is
    /// told, a processor passes it on.
    /// An error of the sink is reported as an `OperatorError` of the node and
    /// input port; otherwise nothing is reported.
    fn snapshotting_done(&mut self, node: usize, port: PortHandle, name: String)
        requires
            old(self).wf(),
            node < old(self).handles@.len(),
        ensures
            final(self).wf(),
            final(self).same_shape(old(self)),
            (exists|cause: String| final(self).state.reports() == old(self).state.reports().push(
                ExecutionError::OperatorError { node: old(self).handles@[node as int], port: Some(port), cause }))
                || final(self).emitted_since(old(self), node, None),
    {
        proof {
            lemma_emitted_refl(self, node);
        }
        let res = match &mut self.operators[node] {
            NodeOperator::Sink(k) => k.on_source_snapshotting_done(name),
            _ => {
                self.emit(node, None, ExecutorMessage::SnapshottingDone(name));
                Ok(())
            },
        };
        if let Err(cause) = res {
            let node_handle = self.handles[node].duplicate();
            self.state.fail(ExecutionError::OperatorError { node: node_handle, port: Some(port), cause });
        }
    }

    /// Reads and handles one message at processor or sink `node`, taking its
    /// inputs in turn. Returns whether a message was read.
    fn step_node(&mut self, node: usize) -> (r: bool)
        requires
            old(self).wf(),
            node < old(self).handles@.len(),
        ensures
            final(self).wf(),
            final(self).same_shape(old(self)),
    {
        let moved = self.flush(node);
        if self.done[node] || self.pending[node].len() > 0 {
            return moved;
        }
        let ports = self.in_edges[node].len();
        let mut tries: usize = 0;
        while tries < ports
            invariant
                self.wf(),
                self.same_shape(old(self)),
                node < self.handles@.len(),
                ports == self.in_edges@[node as int]@.len(),
            decreases ports - tries,
        {
            let slot = if self.cursor[node] < ports { self.cursor[node] } else { 0 };
            let next = if slot + 1 < ports { slot + 1 } else { 0 };
            self.cursor.set(node, next);
            let e = self.in_edges[node][slot];
            if self.aligners[node].can_read(slot) && !self.queues[e].is_empty() {
                let msg = match self.queues[e].try_recv() {
                    Some(msg) => msg,
                    None => ExecutorMessage::Terminate,
                };
                let port = self.dst_port[e];
                let arrival = match &msg {
                    ExecutorMessage::Op(_) => Arrival::Op,
                    ExecutorMessage::SnapshottingDone(_) => Arrival::Op,
                    ExecutorMessage::Marker(ep) => Arrival::Marker(ep.id),
                    ExecutorMessage::Terminate => Arrival::Terminate,
                };
                let step = self.aligners[node].on_arrival(slot, arrival);
                match step {
                    Step::Process => match msg {
                        ExecutorMessage::Op(op) => self.deliver(node, port, op),
                        ExecutorMessage::SnapshottingDone(name) => self.snapshotting_done(node, port, name),
                        _ => {},
                    },
                    Step::Commit(id) => {
                        let epoch = match msg {
                            ExecutorMessage::Marker(ep) => ep,
                            _ => match &self.markers[node] {
                                Some(ep) => Epoch { id, details: ep.details.clone() },
                                None => Epoch { id, details: Vec::new() },
                            },
                        };
                        self.markers.set(node, None);
                        self.commit_at(node, epoch);
                    },
                    Step::Wait => {
                        if let ExecutorMessage::Marker(ep) = msg {
                            self.markers.set(node, Some(ep));
                        }
                    },
                    Step::Finished => {
                        let forwards = match &self.operators[node] {
                            NodeOperator::Processor(_) => true,
                            _ => false,
                        };
                        if forwards {
                            self.emit(node, None, ExecutorMessage::Terminate);
                        }
                        self.done.set(node, true);
                    },
                    Step::Violation => {
                        let node_handle = self.handles[node].duplicate();
                        self.state.fail(ExecutionError::MarkerViolation { node: node_handle, port });
                    },
                }
                self.flush(node);
                return true;
            }
            tries = tries + 1;
        }
        moved
    }

    fn all_done(&self) -> (r: bool)
        ensures
            r == forall|i: int| 0 <= i < self.done@.len() ==> #[trigger] self.done@[i],
    {
        let mut i: usize = 0;
        while i < self.done.len()
            invariant
                i <= self.done@.len(),
                forall|j: int| 0 <= j < i ==> #[trigger] self.done@[j],
            decreases self.done@.len() - i,
        {
            if !self.done[i] {
                return false;
            }
            i = i + 1;
        }
        true
    }

    /// One round: every node in topological order gets its turn; a source
    /// yields one message, a processor or sink reads up to a batch of them.
    /// Returns whether anything moved.
    fn round(&mut self) -> (r: bool)
        requires
            old(self).wf(),
        ensures
            final(self).wf(),
            final(self).same_shape(old(self)),
    {
        let mut progress = false;
        let mut idx: usize = 0;
        while idx < self.order.len()
            invariant
                self.wf(),
                self.same_shape(old(self)),
                idx <= self.order@.len(),
            decreases self.order@.len() - idx,
        {
            if !self.state.running() {
                return progress;
            }
            let node = self.order[idx];
            let is_source = match &self.operators[node] {
                NodeOperator::Source(_) => true,
                _ => false,
            };
            if is_source {
                if self.step_source(node) {
                    progress = true;
                }
            } else {
                let mut b: usize = 0;
                while b < BATCH
                    invariant
                        self.wf(),
                        self.same_shape(old(self)),
                        node < self.handles@.len(),
                    decreases BATCH - b,
                {
                    if !self.state.running() || !self.step_node(node) {
                        break;
                    }
                    progress = true;
                    b = b + 1;
                }
            }
            idx = idx + 1;
        }
        progress
    }
}

} // verus!
