use vstd::prelude::*;
use crate::dag::{Dag, NodeKind};
use crate::failure::ExecutionError;
use crate::topology::is_topological;
use crate::types::{PortHandle, Schema};

verus! {

/// What the graph asks of a node's factory before a run: the schema of each
/// of its outputs, from the schemas of its inputs, and a chance to check its
/// inputs (sinks).
pub trait SchemaFactory {
    fn get_output_schema(&self, port: PortHandle, input_schemas: &Vec<(PortHandle, Schema)>) -> Result<Schema, String>;

    fn prepare(&self, input_schemas: &Vec<(PortHandle, Schema)>) -> Result<(), String>;
}

/// `list` holds a schema for `port`.
pub open spec fn has_port(list: Seq<(PortHandle, Schema)>, port: PortHandle) -> bool {
    exists|j: int| 0 <= j < list.len() && list[j].0 == port
}

fn find_schema(list: &Vec<(PortHandle, Schema)>, port: PortHandle) -> (r: Option<usize>)
    ensures
        match r {
            Some(j) => j < list@.len() && list@[j as int].0 == port,
            None => forall|j: int| 0 <= j < list@.len() ==> list@[j].0 != port,
        },
{
    let mut j: usize = 0;
    while j < list.len()
        invariant
            j <= list@.len(),
            forall|x: int| 0 <= x < j ==> list@[x].0 != port,
        decreases list@.len() - j,
    {
        if list[j].0 == port {
            return Some(j);
        }
        j = j + 1;
    }
    None
}

/// Two schemas with the same columns and key.
pub open spec fn same_schema(a: Schema, b: Schema) -> bool {
    a.fields@ == b.fields@ && a.primary_index@ == b.primary_index@
}

/// `item` pairs the input port of an edge into `node` with a schema that
/// `outputs` holds for the output port the edge leaves.
pub open spec fn flows_in(dag: &Dag, outputs: Seq<Vec<(PortHandle, Schema)>>, node: usize, item: (PortHandle, Schema)) -> bool {
    exists|k: int, j: int| 0 <= k < dag.edges@.len() && dag.edges@[k].dst == node && item.0 == dag.edges@[k].dst_port
        && 0 <= j < outputs[dag.edges@[k].src as int]@.len()
        && outputs[dag.edges@[k].src as int]@[j].0 == dag.edges@[k].src_port
        && same_schema(item.1, outputs[dag.edges@[k].src as int]@[j].1)
}

/// The schemas that flow into `node`: for each edge that ends there, in the
/// order the edges were connected, its input port with the schema computed
/// for the output it leaves. An edge whose output has no schema yet is left
/// out.
pub fn gather_inputs(dag: &Dag, outputs: &Vec<Vec<(PortHandle, Schema)>>, node: usize) -> (r: Vec<(PortHandle, Schema)>)
    requires
        dag.wf(),
        outputs@.len() == dag.nodes@.len(),
    ensures
        forall|x: int| 0 <= x < r@.len() ==> #[trigger] flows_in(dag, outputs@, node, r@[x]),
        forall|k: int| 0 <= k < dag.edges@.len() && #[trigger] dag.edges@[k].dst == node
            && has_port(outputs@[dag.edges@[k].src as int]@, dag.edges@[k].src_port)
            ==> has_port(r@, dag.edges@[k].dst_port),
{
    let mut r: Vec<(PortHandle, Schema)> = Vec::new();
    let mut k: usize = 0;
    while k < dag.edges.len()
        invariant
            dag.wf(),
            outputs@.len() == dag.nodes@.len(),
            k <= dag.edges@.len(),
            forall|x: int| 0 <= x < r@.len() ==> #[trigger] flows_in(dag, outputs@, node, r@[x]),
            forall|k2: int| 0 <= k2 < k && #[trigger] dag.edges@[k2].dst == node
                && has_port(outputs@[dag.edges@[k2].src as int]@, dag.edges@[k2].src_port)
                ==> has_port(r@, dag.edges@[k2].dst_port),
        decreases dag.edges@.len() - k,
    {
        let e = dag.edges[k];
        assert(e == dag.edges@[k as int]);
        assert(e.src < dag.nodes@.len());
        if e.dst == node {
            match find_schema(&outputs[e.src], e.src_port) {
                Some(j) => {
                    let ghost before = r@;
                    r.push((e.dst_port, outputs[e.src][j].1.duplicate()));
                    assert forall|x: int| 0 <= x < r@.len() implies #[trigger] flows_in(dag, outputs@, node, r@[x]) by {
                        if x < before.len() {
                            assert(r@[x] == before[x]);
                        } else {
                            assert(dag.edges@[k as int].dst == node);
                            assert(outputs@[e.src as int]@[j as int].0 == e.src_port);
                        }
                    }
                    assert forall|k2: int| 0 <= k2 < k + 1 && #[trigger] dag.edges@[k2].dst == node
                        && has_port(outputs@[dag.edges@[k2].src as int]@, dag.edges@[k2].src_port)
                        implies has_port(r@, dag.edges@[k2].dst_port) by {
                        if k2 == k {
                            assert(r@[before.len() as int].0 == dag.edges@[k2].dst_port);
                        } else {
                            let x = choose|x: int| 0 <= x < before.len() && before[x].0 == dag.edges@[k2].dst_port;
                            assert(r@[x] == before[x]);
                        }
                    }
                },
                None => {
                    assert(!has_port(outputs@[e.src as int]@, e.src_port));
                },
            }
        }
        k = k + 1;
    }
    r
}

/// Computes every node's output schemas in topological order: a source's
/// from its factory alone, a processor's from the schemas of its inputs; a
/// sink's factory checks its inputs. The first factory error stops the pass.
/// On success, node `i`'s list holds one schema per declared output port, in
/// the declared order.
pub fn propagate_schemas<F: SchemaFactory>(dag: &Dag, order: &Vec<usize>, factories: &Vec<F>) -> (r: Result<Vec<Vec<(PortHandle, Schema)>>, ExecutionError>)
    requires
        dag.wf(),
        is_topological(order@, dag.nodes@.len(), dag.edges@),
        factories@.len() == dag.nodes@.len(),
    ensures
        match r {
            Ok(outputs) => outputs@.len() == dag.nodes@.len()
                && forall|i: int| 0 <= i < dag.nodes@.len() ==> (#[trigger] outputs@[i])@.len() == dag.nodes@[i].output_ports@.len()
                    && forall|j: int| 0 <= j < outputs@[i]@.len() ==> outputs@[i]@[j].0 == dag.nodes@[i].output_ports@[j].handle,
            Err(e) => e is SchemaError,
        },
        dag.nodes@.len() == 0 ==> r is Ok,
{
    let n = dag.nodes.len();
    let mut outputs: Vec<Vec<(PortHandle, Schema)>> = Vec::new();
    let mut done: Vec<bool> = Vec::new();
    let mut i: usize = 0;
    while i < n
        invariant
            n == dag.nodes@.len(),
            i <= n,
            outputs@.len() == i,
            done@.len() == i,
            forall|x: int| 0 <= x < i ==> !#[trigger] done@[x],
        decreases n - i,
    {
        outputs.push(Vec::new());
        done.push(false);
        i = i + 1;
    }
    let mut idx: usize = 0;
    while idx < order.len()
        invariant
            dag.wf(),
            is_topological(order@, dag.nodes@.len(), dag.edges@),
            factories@.len() == n,
            n == dag.nodes@.len(),
            outputs@.len() == n,
            done@.len() == n,
            idx <= order@.len(),
            forall|x: int| 0 <= x < n && #[trigger] done@[x] ==> outputs@[x]@.len() == dag.nodes@[x].output_ports@.len()
                && forall|j: int| 0 <= j < outputs@[x]@.len() ==> outputs@[x]@[j].0 == dag.nodes@[x].output_ports@[j].handle,
            forall|y: int| 0 <= y < idx ==> done@[#[trigger] order@[y] as int],
        decreases order@.len() - idx,
    {
        let node = order[idx];
        let inputs = gather_inputs(dag, &outputs, node);
        let spec_node = &dag.nodes[node];
        if spec_node.kind == NodeKind::Sink {
            if let Err(cause) = factories[node].prepare(&inputs) {
                return Err(ExecutionError::SchemaError { node: spec_node.handle.duplicate(), port: 0, cause });
            }
        }
        let mut list: Vec<(PortHandle, Schema)> = Vec::new();
        let mut j: usize = 0;
        while j < spec_node.output_ports.len()
            invariant
                node < n,
                n == dag.nodes@.len(),
                *spec_node == dag.nodes@[node as int],
                j <= spec_node.output_ports@.len(),
                list@.len() == j,
                forall|y: int| 0 <= y < j ==> list@[y].0 == spec_node.output_ports@[y].handle,
                factories@.len() == n,
            decreases spec_node.output_ports@.len() - j,
        {
            let port = spec_node.output_ports[j].handle;
            match factories[node].get_output_schema(port, &inputs) {
                Ok(schema) => list.push((port, schema)),
                Err(cause) => return Err(ExecutionError::SchemaError { node: spec_node.handle.duplicate(), port, cause }),
            }
            j = j + 1;
        }
        let ghost before = done@;
        outputs.set(node, list);
        done.set(node, true);
        assert forall|y: int| 0 <= y < idx + 1 implies done@[#[trigger] order@[y] as int] by {
            if y < idx {
                assert(before[order@[y] as int]);
            }
        }
        idx = idx + 1;
    }
    let mut x: usize = 0;
    while x < n
        invariant
            n == dag.nodes@.len(),
            done@.len() == n,
            x <= n,
            is_topological(order@, dag.nodes@.len(), dag.edges@),
            forall|y: int| 0 <= y < order@.len() ==> done@[#[trigger] order@[y] as int],
            forall|z: int| 0 <= z < x ==> #[trigger] done@[z],
            outputs@.len() == n,
            forall|z: int| 0 <= z < n && #[trigger] done@[z] ==> outputs@[z]@.len() == dag.nodes@[z].output_ports@.len()
                && forall|j: int| 0 <= j < outputs@[z]@.len() ==> outputs@[z]@[j].0 == dag.nodes@[z].output_ports@[j].handle,
        decreases n - x,
    {
        proof {
            assert(crate::topology::lists(order@, x));
            let y = choose|y: int| 0 <= y < order@.len() && order@[y] == x;
            assert(done@[order@[y] as int]);
        }
        x = x + 1;
    }
    assert forall|i: int| 0 <= i < dag.nodes@.len() implies (#[trigger] outputs@[i])@.len() == dag.nodes@[i].output_ports@.len()
        && forall|j: int| 0 <= j < outputs@[i]@.len() ==> outputs@[i]@[j].0 == dag.nodes@[i].output_ports@[j].handle by {
        assert(done@[i]);
    }
    Ok(outputs)
}

} // verus!
