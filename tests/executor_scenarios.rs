use std::cell::RefCell;
use std::rc::Rc;

use dozer_core::dag::Dag;
use dozer_core::epoch::Epoch;
use dozer_core::executor::{DagExecutor, ExecutorOptions, NodeOperator, Processor, Sink, Source};
use dozer_core::types::{
    Endpoint, Field, IngestionMessage, NodeHandle, Operation, OutputPortDef, OutputPortType, PortHandle, Record,
    DEFAULT_PORT_HANDLE,
};

struct Generator {
    count: u64,
    n: u64,
}

impl Source for Generator {
    fn next(&mut self) -> Result<Option<(PortHandle, IngestionMessage)>, String> {
        if self.n >= self.count {
            return Ok(None);
        }
        self.n += 1;
        let n = self.n;
        let op = Operation::Insert {
            new: Record::new(
                None,
                vec![Field::String(format!("key_{n}")), Field::String(format!("value_{n}"))],
                None,
            ),
        };
        Ok(Some((DEFAULT_PORT_HANDLE, IngestionMessage::new_op(n, 0, op))))
    }
}

struct Passthrough;

impl Processor for Passthrough {
    fn process(&mut self, _from_port: PortHandle, op: Operation, fw: &mut Vec<(PortHandle, Operation)>) -> Result<(), String> {
        fw.push((DEFAULT_PORT_HANDLE, op));
        Ok(())
    }

    fn commit(&mut self, _epoch: &Epoch) -> Result<(), String> {
        Ok(())
    }
}

#[derive(Default)]
struct Observed {
    ops: u64,
    ops_per_port: Vec<(PortHandle, u64)>,
    commits: Vec<Epoch>,
    ops_at_commit: Vec<u64>,
}

struct Counting {
    seen: Rc<RefCell<Observed>>,
}

impl Sink for Counting {
    fn process(&mut self, from_port: PortHandle, _op: Operation) -> Result<(), String> {
        let mut seen = self.seen.borrow_mut();
        seen.ops += 1;
        match seen.ops_per_port.iter_mut().find(|(p, _)| *p == from_port) {
            Some((_, c)) => *c += 1,
            None => seen.ops_per_port.push((from_port, 1)),
        }
        Ok(())
    }

    fn commit(&mut self, epoch: &Epoch) -> Result<(), String> {
        let mut seen = self.seen.borrow_mut();
        let ops = seen.ops;
        seen.commits.push(epoch.clone());
        seen.ops_at_commit.push(ops);
        Ok(())
    }

    fn on_source_snapshotting_done(&mut self, _connection_name: String) -> Result<(), String> {
        Ok(())
    }
}

type Op = NodeOperator<Generator, Passthrough, Counting>;

fn stateless() -> Vec<OutputPortDef> {
    vec![OutputPortDef::new(DEFAULT_PORT_HANDLE, OutputPortType::Stateless)]
}

fn run_chain(count: u64, options: ExecutorOptions) -> Rc<RefCell<Observed>> {
    let seen = Rc::new(RefCell::new(Observed::default()));
    let mut dag = Dag::new();
    let src = NodeHandle::new(None, "source".to_string());
    let proc = NodeHandle::new(Some(1), "passthrough".to_string());
    let sink = NodeHandle::new(Some(1), "sink".to_string());
    dag.add_source(src.clone(), stateless()).unwrap();
    dag.add_processor(proc.clone(), vec![DEFAULT_PORT_HANDLE], stateless()).unwrap();
    dag.add_sink(sink.clone(), vec![DEFAULT_PORT_HANDLE]).unwrap();
    dag.connect(Endpoint::new(src, DEFAULT_PORT_HANDLE), Endpoint::new(proc.clone(), DEFAULT_PORT_HANDLE)).unwrap();
    dag.connect(Endpoint::new(proc, DEFAULT_PORT_HANDLE), Endpoint::new(sink, DEFAULT_PORT_HANDLE)).unwrap();
    let ops: Vec<Op> = vec![
        NodeOperator::Source(Generator { count, n: 0 }),
        NodeOperator::Processor(Passthrough),
        NodeOperator::Sink(Counting { seen: seen.clone() }),
    ];
    DagExecutor::new(dag, ops, options).unwrap().join().unwrap();
    seen
}

#[test]
fn happy_path_delivers_every_operation() {
    let seen = run_chain(1_000_000, ExecutorOptions::default());
    assert_eq!(seen.borrow().ops, 1_000_000);
}

#[test]
fn small_run_delivers_every_operation_with_tiny_queues() {
    let mut options = ExecutorOptions::default();
    options.channel_buffer_size = 1;
    options.commit_sz = 7;
    let seen = run_chain(1_000, options);
    assert_eq!(seen.borrow().ops, 1_000);
    let ids: Vec<u64> = seen.borrow().commits.iter().map(|e| e.id).collect();
    assert_eq!(ids, (0..ids.len() as u64).collect::<Vec<u64>>());
    assert_eq!(ids.len(), 142);
}

#[test]
fn epochs_are_consecutive_and_cumulative() {
    let mut options = ExecutorOptions::default();
    options.commit_sz = 50_000;
    options.commit_time_threshold = 100;
    let seen = run_chain(1_000_000, options);
    let seen = seen.borrow();
    let ids: Vec<u64> = seen.commits.iter().map(|e| e.id).collect();
    assert!(ids.len() >= 11);
    assert_eq!(ids, (0..ids.len() as u64).collect::<Vec<u64>>());
    let mut last = 0;
    for (epoch, ops) in seen.commits.iter().zip(seen.ops_at_commit.iter()) {
        let txid = epoch.details[0].txid;
        assert!(txid >= last);
        last = txid;
        // every operation emitted before the marker reached the sink before it committed
        assert_eq!(*ops, txid);
    }
}

#[test]
fn fan_in_aligns_epochs_across_inputs() {
    let seen = Rc::new(RefCell::new(Observed::default()));
    let mut dag = Dag::new();
    let src = NodeHandle::new(None, "source".to_string());
    let left = NodeHandle::new(None, "left".to_string());
    let right = NodeHandle::new(None, "right".to_string());
    let sink = NodeHandle::new(None, "sink".to_string());
    dag.add_source(src.clone(), stateless()).unwrap();
    dag.add_processor(left.clone(), vec![DEFAULT_PORT_HANDLE], stateless()).unwrap();
    dag.add_processor(right.clone(), vec![DEFAULT_PORT_HANDLE], stateless()).unwrap();
    dag.add_sink(sink.clone(), vec![1, 2]).unwrap();
    dag.connect(Endpoint::new(src.clone(), DEFAULT_PORT_HANDLE), Endpoint::new(left.clone(), DEFAULT_PORT_HANDLE)).unwrap();
    dag.connect(Endpoint::new(src, DEFAULT_PORT_HANDLE), Endpoint::new(right.clone(), DEFAULT_PORT_HANDLE)).unwrap();
    dag.connect(Endpoint::new(left, DEFAULT_PORT_HANDLE), Endpoint::new(sink.clone(), 1)).unwrap();
    dag.connect(Endpoint::new(right, DEFAULT_PORT_HANDLE), Endpoint::new(sink, 2)).unwrap();
    let ops: Vec<Op> = vec![
        NodeOperator::Source(Generator { count: 10_000, n: 0 }),
        NodeOperator::Processor(Passthrough),
        NodeOperator::Processor(Passthrough),
        NodeOperator::Sink(Counting { seen: seen.clone() }),
    ];
    let mut options = ExecutorOptions::default();
    options.commit_sz = 1_000;
    DagExecutor::new(dag, ops, options).unwrap().join().unwrap();
    let seen = seen.borrow();
    assert_eq!(seen.ops, 20_000);
    let ids: Vec<u64> = seen.commits.iter().map(|e| e.id).collect();
    assert_eq!(ids, (0..10).collect::<Vec<u64>>());
    for (epoch, ops) in seen.commits.iter().zip(seen.ops_at_commit.iter()) {
        assert_eq!(*ops, 2 * epoch.details[0].txid);
    }
}

#[test]
fn empty_graph_joins_without_error() {
    let ops: Vec<Op> = Vec::new();
    assert!(DagExecutor::new(Dag::new(), ops, ExecutorOptions::default()).unwrap().join().is_ok());
}
