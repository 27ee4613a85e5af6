use vstd::prelude::*;
use crate::topology::{Edge, edges_in_range, acyclic, is_topological, topological_order};
use crate::types::{NodeHandle, Endpoint, OutputPortDef, PortHandle};

verus! {

pub open spec fn ends_at(node: usize) -> spec_fn(Edge) -> bool {
    |e: Edge| e.dst == node
}

pub open spec fn starts_at(node: usize) -> spec_fn(Edge) -> bool {
    |e: Edge| e.src == node
}

/// The three kinds of operator.
#[derive(Debug, Clone, Copy, PartialEq, Eq, Structural)]
pub enum NodeKind {
    Source,
    Processor,
    Sink,
}

/// Why a graph could not be built or validated.
#[derive(Debug, Clone, Copy, PartialEq, Eq, Structural)]
pub enum DagError {
    DuplicateNode,
    UnknownNode,
    UnknownPort,
    PortKindMismatch,
    DuplicateInputEdge,
    CycleIntroduced,
    MissingInputEdge,
    MissingOutputEdge,
    /// A graph assembled by hand breaks the builder's invariant.
    Malformed,
}

/// A node of the graph: its handle, its kind and the ports its factory declares.
#[derive(Debug)]
pub struct NodeSpec {
    pub handle: NodeHandle,
    pub kind: NodeKind,
    pub input_ports: Vec<PortHandle>,
    pub output_ports: Vec<OutputPortDef>,
}

impl NodeSpec {
    pub open spec fn has_input(&self, p: PortHandle) -> bool {
        self.input_ports@.contains(p)
    }

    pub open spec fn has_output(&self, p: PortHandle) -> bool {
        exists|j: int| 0 <= j < self.output_ports@.len() && (#[trigger] self.output_ports@[j]).handle == p
    }

    fn input_declared(&self, p: PortHandle) -> (r: bool)
        ensures
            r == self.has_input(p),
    {
        let mut j: usize = 0;
        while j < self.input_ports.len()
            invariant
                j <= self.input_ports@.len(),
                forall|i: int| 0 <= i < j ==> self.input_ports@[i] != p,
            decreases self.input_ports@.len() - j,
        {
            if self.input_ports[j] == p {
                return true;
            }
            j = j + 1;
        }
        false
    }

    fn output_declared(&self, p: PortHandle) -> (r: bool)
        ensures
            r == self.has_output(p),
    {
        let mut j: usize = 0;
        while j < self.output_ports.len()
            invariant
                j <= self.output_ports@.len(),
                forall|i: int| 0 <= i < j ==> (#[trigger] self.output_ports@[i]).handle != p,
            decreases self.output_ports@.len() - j,
        {
            if self.output_ports[j].handle == p {
                return true;
            }
            j = j + 1;
        }
        false
    }
}

/// A graph under construction: nodes in the order they were added, and the
/// edges between them by node position.
#[derive(Debug)]
pub struct Dag {
    pub nodes: Vec<NodeSpec>,
    pub edges: Vec<Edge>,
}

impl Dag {
    pub open spec fn has_node(&self, h: (Option<u16>, Seq<char>)) -> bool {
        exists|i: int| 0 <= i < self.nodes@.len() && (#[trigger] self.nodes@[i]).handle@ == h
    }

    /// The position of the node with handle `h`.
    pub open spec fn index_of(&self, h: (Option<u16>, Seq<char>)) -> usize {
        choose|i: usize| i < self.nodes@.len() && (#[trigger] self.nodes@[i as int]).handle@ == h
    }

    /// Some edge already ends at input `port` of node `dst`.
    pub open spec fn input_taken(&self, dst: usize, port: PortHandle) -> bool {
        exists|k: int| 0 <= k < self.edges@.len() && (#[trigger] self.edges@[k]).dst == dst && self.edges@[k].dst_port == port
    }

    pub open spec fn wf(&self) -> bool {
        let n = self.nodes@.len();
        &&& forall|i: int, j: int| 0 <= i < n && 0 <= j < n && i != j
            ==> (#[trigger] self.nodes@[i]).handle@ != (#[trigger] self.nodes@[j]).handle@
        &&& forall|i: int| 0 <= i < n ==> ((#[trigger] self.nodes@[i]).kind == NodeKind::Source ==> self.nodes@[i].input_ports@.len() == 0)
            && (self.nodes@[i].kind == NodeKind::Sink ==> self.nodes@[i].output_ports@.len() == 0)
        &&& edges_in_range(n, self.edges@)
        &&& forall|k: int| 0 <= k < self.edges@.len() ==> {
            let e = #[trigger] self.edges@[k];
            &&& self.nodes@[e.src as int].has_output(e.src_port)
            &&& self.nodes@[e.dst as int].has_input(e.dst_port)
            &&& self.nodes@[e.src as int].kind != NodeKind::Sink
            &&& self.nodes@[e.dst as int].kind != NodeKind::Source
        }
        &&& forall|k: int, l: int| 0 <= k < self.edges@.len() && 0 <= l < self.edges@.len() && k != l
            ==> !((#[trigger] self.edges@[k]).dst == (#[trigger] self.edges@[l]).dst
                && self.edges@[k].dst_port == self.edges@[l].dst_port)
        &&& acyclic(n, self.edges@)
    }

    /// The edge that `connect(from, to)` adds, once both nodes are known.
    pub open spec fn edge_for(&self, from: ((Option<u16>, Seq<char>), u16), to: ((Option<u16>, Seq<char>), u16)) -> Edge {
        Edge { src: self.index_of(from.0), src_port: from.1, dst: self.index_of(to.0), dst_port: to.1 }
    }

    /// The error that `connect(from, to)` reports, checked in this order, or
    /// `None` when the edge is accepted.
    pub open spec fn connect_error(&self, from: ((Option<u16>, Seq<char>), u16), to: ((Option<u16>, Seq<char>), u16)) -> Option<DagError> {
        if !self.has_node(from.0) || !self.has_node(to.0) {
            Some(DagError::UnknownNode)
        } else {
            let s = self.nodes@[self.index_of(from.0) as int];
            let d = self.nodes@[self.index_of(to.0) as int];
            if s.kind == NodeKind::Sink || d.kind == NodeKind::Source {
                Some(DagError::PortKindMismatch)
            } else if !s.has_output(from.1) || !d.has_input(to.1) {
                Some(DagError::UnknownPort)
            } else if self.input_taken(self.index_of(to.0), to.1) {
                Some(DagError::DuplicateInputEdge)
            } else if !acyclic(self.nodes@.len(), self.edges@.push(self.edge_for(from, to))) {
                Some(DagError::CycleIntroduced)
            } else {
                None
            }
        }
    }

    pub fn new() -> (r: Dag)
        ensures
            r.wf(),
            r.nodes@.len() == 0,
            r.edges@.len() == 0,
    {
        let r = Dag { nodes: Vec::new(), edges: Vec::new() };
        proof {
            let order = Seq::<usize>::empty();
            assert(is_topological(order, 0, r.edges@));
        }
        r
    }

    /// The position of the node with handle `h`, if there is one.
    pub fn find_node(&self, h: &NodeHandle) -> (r: Option<usize>)
        requires
            self.wf(),
        ensures
            r == (if self.has_node(h@) { Some(self.index_of(h@)) } else { None }),
    {
        let mut i: usize = 0;
        while i < self.nodes.len()
            invariant
                self.wf(),
                i <= self.nodes@.len(),
                forall|j: int| 0 <= j < i ==> (#[trigger] self.nodes@[j]).handle@ != h@,
            decreases self.nodes@.len() - i,
        {
            if self.nodes[i].handle.same(h) {
                proof {
                    assert(i < self.nodes@.len() && self.nodes@[i as int].handle@ == h@);
                    let c = self.index_of(h@);
                    assert(self.nodes@[c as int].handle@ == h@);
                    if c != i {
                        assert(self.nodes@[c as int].handle@ != self.nodes@[i as int].handle@);
                    }
                }
                return Some(i);
            }
            i = i + 1;
        }
        None
    }

    fn add_node(&mut self, handle: NodeHandle, kind: NodeKind, input_ports: Vec<PortHandle>, output_ports: Vec<OutputPortDef>) -> (r: Result<usize, DagError>)
        requires
            old(self).wf(),
            kind == NodeKind::Source ==> input_ports@.len() == 0,
            kind == NodeKind::Sink ==> output_ports@.len() == 0,
        ensures
            final(self).wf(),
            final(self).edges@ == old(self).edges@,
            old(self).has_node(handle@) ==> r == Err::<usize, DagError>(DagError::DuplicateNode) && final(self).nodes@ == old(self).nodes@,
            !old(self).has_node(handle@) ==> r == Ok::<usize, DagError>(old(self).nodes@.len() as usize)
                && final(self).nodes@ == old(self).nodes@.push(NodeSpec { handle, kind, input_ports, output_ports }),
    {
        match self.find_node(&handle) {
            Some(_) => Err(DagError::DuplicateNode),
            None => {
                let len = self.nodes.len();
                let ghost n = self.nodes@.len();
                let ghost edges = self.edges@;
                proof {
                    let order = choose|order: Seq<usize>| is_topological(order, n, edges);
                    let order2 = order.push(len);
                    assert(is_topological(order2, n + 1, edges)) by {
                        assert forall|i: int| 0 <= i < order2.len() implies #[trigger] order2[i] < n + 1 by {
                            if i < order.len() {
                                assert(order2[i] == order[i]);
                            }
                        }
                        assert forall|i: int, j: int|
                            0 <= i < order2.len() && 0 <= j < order2.len() && i != j implies #[trigger] order2[i] != #[trigger] order2[j] by {
                            if i < order.len() && j < order.len() {
                                assert(order2[i] == order[i] && order2[j] == order[j]);
                            } else if i < order.len() {
                                assert(order2[i] == order[i]);
                            } else if j < order.len() {
                                assert(order2[j] == order[j]);
                            }
                        }
                        assert(forall|v: usize| v < n ==> #[trigger] crate::topology::lists(order, v));
                        assert forall|v: usize| v < n + 1 implies #[trigger] crate::topology::lists(order2, v) by {
                            if v < n {
                                assert(crate::topology::lists(order, v));
                                let i = choose|i: int| 0 <= i < order.len() && order[i] == v;
                                assert(order2[i] == v);
                            } else {
                                assert(order2[order.len() as int] == v);
                            }
                        }
                        assert forall|k: int, i: int, j: int|
                            0 <= k < edges.len() && 0 <= i < order2.len() && 0 <= j < order2.len()
                                && #[trigger] order2[i] == edges[k].src && #[trigger] order2[j] == #[trigger] edges[k].dst
                                implies i < j by {
                            assert(edges[k].src < n && edges[k].dst < n);
                            assert(order2[order.len() as int] == n);
                            assert(i != order.len() && j != order.len());
                            assert(order2[i] == order[i] && order2[j] == order[j]);
                        }
                    }
                }
                self.nodes.push(NodeSpec { handle, kind, input_ports, output_ports });
                assert(self.nodes@[n as int].handle@ == handle@);
                Ok(len)
            }
        }
    }

    /// Adds a source with the output ports its factory declares.
    pub fn add_source(&mut self, handle: NodeHandle, output_ports: Vec<OutputPortDef>) -> (r: Result<usize, DagError>)
        requires
            old(self).wf(),
        ensures
            final(self).wf(),
            final(self).edges@ == old(self).edges@,
            old(self).has_node(handle@) ==> r == Err::<usize, DagError>(DagError::DuplicateNode) && final(self).nodes@ == old(self).nodes@,
            !old(self).has_node(handle@) ==> r == Ok::<usize, DagError>(old(self).nodes@.len() as usize)
                && final(self).nodes@.len() == old(self).nodes@.len() + 1
                && final(self).nodes@.drop_last() == old(self).nodes@
                && final(self).nodes@.last().handle == handle
                && final(self).nodes@.last().kind == NodeKind::Source
                && final(self).nodes@.last().input_ports@.len() == 0
                && final(self).nodes@.last().output_ports@ == output_ports@,
    {
        let r = self.add_node(handle, NodeKind::Source, Vec::new(), output_ports);
        proof {
            if r.is_ok() {
                assert(self.nodes@.drop_last() =~= old(self).nodes@);
            }
        }
        r
    }

    /// Adds a processor with the input and output ports its factory declares.
    pub fn add_processor(&mut self, handle: NodeHandle, input_ports: Vec<PortHandle>, output_ports: Vec<OutputPortDef>) -> (r: Result<usize, DagError>)
        requires
            old(self).wf(),
        ensures
            final(self).wf(),
            final(self).edges@ == old(self).edges@,
            old(self).has_node(handle@) ==> r == Err::<usize, DagError>(DagError::DuplicateNode) && final(self).nodes@ == old(self).nodes@,
            !old(self).has_node(handle@) ==> r == Ok::<usize, DagError>(old(self).nodes@.len() as usize)
                && final(self).nodes@.len() == old(self).nodes@.len() + 1
                && final(self).nodes@.drop_last() == old(self).nodes@
                && final(self).nodes@.last().handle == handle
                && final(self).nodes@.last().kind == NodeKind::Processor
                && final(self).nodes@.last().input_ports@ == input_ports@
                && final(self).nodes@.last().output_ports@ == output_ports@,
    {
        let r = self.add_node(handle, NodeKind::Processor, input_ports, output_ports);
        proof {
            if r.is_ok() {
                assert(self.nodes@.drop_last() =~= old(self).nodes@);
            }
        }
        r
    }

    /// Adds a sink with the input ports its factory declares.
    pub fn add_sink(&mut self, handle: NodeHandle, input_ports: Vec<PortHandle>) -> (r: Result<usize, DagError>)
        requires
            old(self).wf(),
        ensures
            final(self).wf(),
            final(self).edges@ == old(self).edges@,
            old(self).has_node(handle@) ==> r == Err::<usize, DagError>(DagError::DuplicateNode) && final(self).nodes@ == old(self).nodes@,
            !old(self).has_node(handle@) ==> r == Ok::<usize, DagError>(old(self).nodes@.len() as usize)
                && final(self).nodes@.len() == old(self).nodes@.len() + 1
                && final(self).nodes@.drop_last() == old(self).nodes@
                && final(self).nodes@.last().handle == handle
                && final(self).nodes@.last().kind == NodeKind::Sink
                && final(self).nodes@.last().input_ports@ == input_ports@
                && final(self).nodes@.last().output_ports@.len() == 0,
    {
        let r = self.add_node(handle, NodeKind::Sink, input_ports, Vec::new());
        proof {
            if r.is_ok() {
                assert(self.nodes@.drop_last() =~= old(self).nodes@);
            }
        }
        r
    }

    fn find_input_edge(&self, dst: usize, port: PortHandle) -> (r: Option<usize>)
        ensures
            match r {
                Some(k) => k < self.edges@.len() && self.edges@[k as int].dst == dst && self.edges@[k as int].dst_port == port,
                None => !self.input_taken(dst, port),
            },
    {
        let mut k: usize = 0;
        while k < self.edges.len()
            invariant
                k <= self.edges@.len(),
                forall|j: int| 0 <= j < k ==> !((#[trigger] self.edges@[j]).dst == dst && self.edges@[j].dst_port == port),
            decreases self.edges@.len() - k,
        {
            if self.edges[k].dst == dst && self.edges[k].dst_port == port {
                return Some(k);
            }
            k = k + 1;
        }
        None
    }

    /// Adds an edge from an output port to an input port. Fails, leaving the
    /// graph as it was, when a node is unknown, a sink would send or a source
    /// receive, a port is not declared, the input already has an edge, or the
    /// edge would close a cycle.
    pub fn connect(&mut self, from: Endpoint, to: Endpoint) -> (r: Result<(), DagError>)
        requires
            old(self).wf(),
        ensures
            final(self).wf(),
            final(self).nodes@ == old(self).nodes@,
            match old(self).connect_error(from@, to@) {
                Some(e) => r == Err::<(), DagError>(e) && final(self).edges@ == old(self).edges@,
                None => r == Ok::<(), DagError>(()) && final(self).edges@ == old(self).edges@.push(old(self).edge_for(from@, to@)),
            },
    {
        let s = match self.find_node(&from.node) {
            Some(s) => s,
            None => return Err(DagError::UnknownNode),
        };
        let d = match self.find_node(&to.node) {
            Some(d) => d,
            None => return Err(DagError::UnknownNode),
        };
        if self.nodes[s].kind == NodeKind::Sink || self.nodes[d].kind == NodeKind::Source {
            return Err(DagError::PortKindMismatch);
        }
        if !self.nodes[s].output_declared(from.port) || !self.nodes[d].input_declared(to.port) {
            return Err(DagError::UnknownPort);
        }
        if self.find_input_edge(d, to.port).is_some() {
            return Err(DagError::DuplicateInputEdge);
        }
        let e = Edge { src: s, src_port: from.port, dst: d, dst_port: to.port };
        let mut candidate = self.edges.clone();
        candidate.push(e);
        assert(candidate@ == self.edges@.push(e));
        assert(edges_in_range(self.nodes@.len(), candidate@)) by {
            assert forall|k: int| 0 <= k < candidate@.len() implies (#[trigger] candidate@[k]).src < self.nodes@.len()
                && candidate@[k].dst < self.nodes@.len() by {
                if k < self.edges@.len() {
                    assert(candidate@[k] == self.edges@[k]);
                }
            }
        }
        match topological_order(self.nodes.len(), &candidate) {
            None => Err(DagError::CycleIntroduced),
            Some(_) => {
                self.edges = candidate;
                assert(self.wf()) by {
                    let n = self.nodes@.len();
                    assert forall|k: int| 0 <= k < self.edges@.len() implies {
                        let e = #[trigger] self.edges@[k];
                        &&& self.nodes@[e.src as int].has_output(e.src_port)
                        &&& self.nodes@[e.dst as int].has_input(e.dst_port)
                        &&& self.nodes@[e.src as int].kind != NodeKind::Sink
                        &&& self.nodes@[e.dst as int].kind != NodeKind::Source
                    } by {
                        if k < old(self).edges@.len() {
                            assert(self.edges@[k] == old(self).edges@[k]);
                        }
                    }
                    assert forall|k: int, l: int| 0 <= k < self.edges@.len() && 0 <= l < self.edges@.len() && k != l
                        implies !((#[trigger] self.edges@[k]).dst == (#[trigger] self.edges@[l]).dst
                            && self.edges@[k].dst_port == self.edges@[l].dst_port) by {
                        let m = old(self).edges@.len() as int;
                        if k < m && l < m {
                            assert(self.edges@[k] == old(self).edges@[k]);
                            assert(self.edges@[l] == old(self).edges@[l]);
                        } else if k < m {
                            assert(self.edges@[k] == old(self).edges@[k]);
                        } else if l < m {
                            assert(self.edges@[l] == old(self).edges@[l]);
                        }
                    }
                }
                Ok(())
            },
        }
    }

    /// Every declared input of every processor and sink has an edge.
    pub open spec fn inputs_connected(&self) -> bool {
        forall|i: int, p: PortHandle| 0 <= i < self.nodes@.len() && #[trigger] self.nodes@[i].has_input(p)
            ==> self.input_taken(i as usize, p)
    }

    /// Every source has at least one outgoing edge.
    pub open spec fn sources_connected(&self) -> bool {
        forall|i: int| 0 <= i < self.nodes@.len() && (#[trigger] self.nodes@[i]).kind == NodeKind::Source
            ==> exists|k: int| 0 <= k < self.edges@.len() && (#[trigger] self.edges@[k]).src == i
    }

    fn has_output_edge(&self, src: usize) -> (r: bool)
        ensures
            r == exists|k: int| 0 <= k < self.edges@.len() && (#[trigger] self.edges@[k]).src == src,
    {
        let mut k: usize = 0;
        while k < self.edges.len()
            invariant
                k <= self.edges@.len(),
                forall|j: int| 0 <= j < k ==> (#[trigger] self.edges@[j]).src != src,
            decreases self.edges@.len() - k,
        {
            if self.edges[k].src == src {
                return true;
            }
            k = k + 1;
        }
        false
    }

    /// Checks the graph before it runs: every input is connected, every
    /// source feeds something. On success gives the nodes in topological order.
    pub fn validate(&self) -> (r: Result<Vec<usize>, DagError>)
        requires
            self.wf(),
        ensures
            !self.inputs_connected() <==> r == Err::<Vec<usize>, DagError>(DagError::MissingInputEdge),
            self.inputs_connected() && !self.sources_connected()
                <==> r == Err::<Vec<usize>, DagError>(DagError::MissingOutputEdge),
            match r {
                Ok(order) => self.inputs_connected() && self.sources_connected()
                    && is_topological(order@, self.nodes@.len(), self.edges@),
                Err(e) => e == DagError::MissingInputEdge || e == DagError::MissingOutputEdge,
            },
    {
        let mut i: usize = 0;
        while i < self.nodes.len()
            invariant
                self.wf(),
                i <= self.nodes@.len(),
                forall|x: int, p: PortHandle| 0 <= x < i && #[trigger] self.nodes@[x].has_input(p)
                    ==> self.input_taken(x as usize, p),
            decreases self.nodes@.len() - i,
        {
            let node = &self.nodes[i];
            let mut j: usize = 0;
            while j < node.input_ports.len()
                invariant
                    i < self.nodes@.len(),
                    *node == self.nodes@[i as int],
                    j <= node.input_ports@.len(),
                    forall|y: int| 0 <= y < j ==> self.input_taken(i, #[trigger] node.input_ports@[y]),
                decreases node.input_ports@.len() - j,
            {
                if self.find_input_edge(i, node.input_ports[j]).is_none() {
                    assert(self.nodes@[i as int].has_input(node.input_ports@[j as int]));
                    return Err(DagError::MissingInputEdge);
                }
                j = j + 1;
            }
            assert forall|x: int, p: PortHandle| 0 <= x <= i && #[trigger] self.nodes@[x].has_input(p)
                implies self.input_taken(x as usize, p) by {
                if x == i {
                    let y = choose|y: int| 0 <= y < node.input_ports@.len() && node.input_ports@[y] == p;
                    assert(self.input_taken(i, node.input_ports@[y]));
                }
            }
            i = i + 1;
        }
        let mut i: usize = 0;
        while i < self.nodes.len()
            invariant
                self.wf(),
                self.inputs_connected(),
                i <= self.nodes@.len(),
                forall|x: int| 0 <= x < i && (#[trigger] self.nodes@[x]).kind == NodeKind::Source
                    ==> exists|k: int| 0 <= k < self.edges@.len() && (#[trigger] self.edges@[k]).src == x,
            decreases self.nodes@.len() - i,
        {
            if self.nodes[i].kind == NodeKind::Source && !self.has_output_edge(i) {
                return Err(DagError::MissingOutputEdge);
            }
            i = i + 1;
        }
        match topological_order(self.nodes.len(), &self.edges) {
            Some(order) => Ok(order),
            None => Ok(Vec::new()),
        }
    }

    /// The edges that end at `node`, in the order they were connected.
    pub fn input_edges(&self, node: usize) -> (r: Vec<Edge>)
        ensures
            r@ == self.edges@.filter(ends_at(node)),
    {
        self.edges_where(node, true)
    }

    /// The edges that leave `node`, in the order they were connected.
    pub fn output_edges(&self, node: usize) -> (r: Vec<Edge>)
        ensures
            r@ == self.edges@.filter(starts_at(node)),
    {
        self.edges_where(node, false)
    }

    fn edges_where(&self, node: usize, incoming: bool) -> (r: Vec<Edge>)
        ensures
            r@ == self.edges@.filter(if incoming { ends_at(node) } else { starts_at(node) }),
    {
        let ghost pred = if incoming { ends_at(node) } else { starts_at(node) };
        let mut r: Vec<Edge> = Vec::new();
        let mut k: usize = 0;
        while k < self.edges.len()
            invariant
                k <= self.edges@.len(),
                pred == (if incoming { ends_at(node) } else { starts_at(node) }),
                r@ == self.edges@.subrange(0, k as int).filter(pred),
            decreases self.edges@.len() - k,
        {
            let e = self.edges[k];
            let keep = if incoming { e.dst == node } else { e.src == node };
            if keep {
                r.push(e);
            }
            proof {
                let next = self.edges@.subrange(0, k + 1);
                assert(next.drop_last() =~= self.edges@.subrange(0, k as int));
                assert(next.last() == e);
                reveal(Seq::filter);
            }
            k = k + 1;
        }
        assert(self.edges@.subrange(0, self.edges@.len() as int) =~= self.edges@);
        r
    }

    /// Whether the graph holds its invariant: distinct handles, sources
    /// without inputs and sinks without outputs, edges between declared
    /// ports of fitting kinds, at most one edge per input, and no cycle.
    /// Host code that built a graph by hand tests this before using it.
    pub fn is_well_formed(&self) -> (r: bool)
        ensures
            r == self.wf(),
    {
        let n = self.nodes.len();
        let mut i: usize = 0;
        while i < n
            invariant
                n == self.nodes@.len(),
                i <= n,
                forall|a: int, b: int| 0 <= a < i && 0 <= b < n && a != b
                    ==> (#[trigger] self.nodes@[a]).handle@ != (#[trigger] self.nodes@[b]).handle@,
                forall|a: int| 0 <= a < i ==> ((#[trigger] self.nodes@[a]).kind == NodeKind::Source ==> self.nodes@[a].input_ports@.len() == 0)
                    && (self.nodes@[a].kind == NodeKind::Sink ==> self.nodes@[a].output_ports@.len() == 0),
            decreases n - i,
        {
            let node = &self.nodes[i];
            if node.kind == NodeKind::Source && node.input_ports.len() > 0 {
                return false;
            }
            if node.kind == NodeKind::Sink && node.output_ports.len() > 0 {
                return false;
            }
            let mut j: usize = 0;
            while j < n
                invariant
                    n == self.nodes@.len(),
                    i < n,
                    j <= n,
                    *node == self.nodes@[i as int],
                    forall|b: int| 0 <= b < j && b != i ==> self.nodes@[i as int].handle@ != (#[trigger] self.nodes@[b]).handle@,
                decreases n - j,
            {
                if j != i && node.handle.same(&self.nodes[j].handle) {
                    return false;
                }
                j = j + 1;
            }
            assert forall|a: int, b: int| 0 <= a < i + 1 && 0 <= b < n && a != b
                implies (#[trigger] self.nodes@[a]).handle@ != (#[trigger] self.nodes@[b]).handle@ by {
                if a == i {
                    assert(self.nodes@[i as int].handle@ != self.nodes@[b].handle@);
                }
            }
            i = i + 1;
        }
        let m = self.edges.len();
        let mut k: usize = 0;
        while k < m
            invariant
                n == self.nodes@.len(),
                m == self.edges@.len(),
                k <= m,
                forall|x: int| 0 <= x < k ==> (#[trigger] self.edges@[x]).src < n && self.edges@[x].dst < n,
                forall|x: int| 0 <= x < k ==> {
                    let e = #[trigger] self.edges@[x];
                    &&& self.nodes@[e.src as int].has_output(e.src_port)
                    &&& self.nodes@[e.dst as int].has_input(e.dst_port)
                    &&& self.nodes@[e.src as int].kind != NodeKind::Sink
                    &&& self.nodes@[e.dst as int].kind != NodeKind::Source
                },
                forall|x: int, y: int| 0 <= x < k && 0 <= y < m && x != y
                    ==> !((#[trigger] self.edges@[x]).dst == (#[trigger] self.edges@[y]).dst
                        && self.edges@[x].dst_port == self.edges@[y].dst_port),
            decreases m - k,
        {
            let e = self.edges[k];
            if e.src >= n || e.dst >= n {
                return false;
            }
            let src = &self.nodes[e.src];
            let dst = &self.nodes[e.dst];
            if src.kind == NodeKind::Sink || dst.kind == NodeKind::Source
                || !src.output_declared(e.src_port) || !dst.input_declared(e.dst_port) {
                return false;
            }
            let mut l: usize = 0;
            while l < m
                invariant
                    m == self.edges@.len(),
                    k < m,
                    l <= m,
                    e == self.edges@[k as int],
                    forall|y: int| 0 <= y < l && y != k ==> !(e.dst == (#[trigger] self.edges@[y]).dst && e.dst_port == self.edges@[y].dst_port),
                decreases m - l,
            {
                if l != k && self.edges[l].dst == e.dst && self.edges[l].dst_port == e.dst_port {
                    return false;
                }
                l = l + 1;
            }
            k = k + 1;
        }
        assert(edges_in_range(n as nat, self.edges@));
        topological_order(n, &self.edges).is_some()
    }
}

} // verus!
