use dozer_core::dag::Dag;
use dozer_core::epoch::Epoch;
use dozer_core::executor::{DagExecutor, ExecutorOptions, NodeOperator, Processor, Sink, Source};
use dozer_core::failure::ExecutionError;
use dozer_core::types::{
    Endpoint, Field, IngestionMessage, NodeHandle, Operation, OutputPortDef, OutputPortType, PortHandle, Record,
    DEFAULT_PORT_HANDLE,
};

const GENERATOR_SOURCE_OUTPUT_PORT: PortHandle = 100;
const COUNTING_SINK_INPUT_PORT: PortHandle = 90;

enum TestSource {
    Generator { count: u64, n: u64 },
    ErrGenerator { count: u64, err_at: u64, n: u64 },
}

impl Source for TestSource {
    fn next(&mut self) -> Result<Option<(PortHandle, IngestionMessage)>, String> {
        let (count, n) = match self {
            TestSource::Generator { count, n } => (*count, n),
            TestSource::ErrGenerator { count, n, .. } => (*count, n),
        };
        if *n >= count {
            return Ok(None);
        }
        *n += 1;
        let n = *n;
        if let TestSource::ErrGenerator { err_at, .. } = self {
            if n == *err_at {
                return Err("Generated Error".to_string());
            }
        }
        let op = Operation::Insert {
            new: Record::new(
                None,
                vec![Field::String(format!("key_{n}")), Field::String(format!("value_{n}"))],
                None,
            ),
        };
        Ok(Some((GENERATOR_SOURCE_OUTPUT_PORT, IngestionMessage::new_op(n, 0, op))))
    }
}

enum TestProcessor {
    Noop,
    Error { err_on: u64, count: u64, panic: bool },
}

impl Processor for TestProcessor {
    fn process(&mut self, _from_port: PortHandle, op: Operation, fw: &mut Vec<(PortHandle, Operation)>) -> Result<(), String> {
        if let TestProcessor::Error { err_on, count, panic } = self {
            *count += 1;
            if *count == *err_on {
                if *panic {
                    panic!("Generated error");
                } else {
                    return Err("Uknown".to_string());
                }
            }
        }
        fw.push((DEFAULT_PORT_HANDLE, op));
        Ok(())
    }

    fn commit(&mut self, _epoch: &Epoch) -> Result<(), String> {
        Ok(())
    }
}

enum TestSink {
    Counting { expected: u64, current: u64 },
    Failing { err_at: u64, current: u64, panic: bool },
}

impl Sink for TestSink {
    fn process(&mut self, _from_port: PortHandle, _op: Operation) -> Result<(), String> {
        match self {
            TestSink::Counting { current, .. } => {
                *current += 1;
                Ok(())
            }
            TestSink::Failing { err_at, current, panic } => {
                *current += 1;
                if *current == *err_at {
                    if *panic {
                        panic!("Generated error");
                    } else {
                        return Err("Generated error".to_string());
                    }
                }
                Ok(())
            }
        }
    }

    fn commit(&mut self, _epoch: &Epoch) -> Result<(), String> {
        Ok(())
    }

    fn on_source_snapshotting_done(&mut self, _connection_name: String) -> Result<(), String> {
        Ok(())
    }
}

type Op = NodeOperator<TestSource, TestProcessor, TestSink>;

fn stateless(port: PortHandle) -> Vec<OutputPortDef> {
    vec![OutputPortDef::new(port, OutputPortType::Stateless)]
}

/// Builds a chain source -> processors... -> sink and runs it.
fn run_chain(source: TestSource, processors: Vec<TestProcessor>, sink: TestSink) -> Result<(), ExecutionError> {
    let mut dag = Dag::new();
    let mut ops: Vec<Op> = Vec::new();
    let source_handle = NodeHandle::new(None, 1.to_string());
    dag.add_source(source_handle.clone(), stateless(GENERATOR_SOURCE_OUTPUT_PORT)).unwrap();
    ops.push(NodeOperator::Source(source));
    let mut prev = Endpoint::new(source_handle, GENERATOR_SOURCE_OUTPUT_PORT);
    for (i, p) in processors.into_iter().enumerate() {
        let handle = NodeHandle::new(Some(1), (i + 1).to_string());
        dag.add_processor(handle.clone(), vec![DEFAULT_PORT_HANDLE], stateless(DEFAULT_PORT_HANDLE)).unwrap();
        ops.push(NodeOperator::Processor(p));
        dag.connect(prev, Endpoint::new(handle.clone(), DEFAULT_PORT_HANDLE)).unwrap();
        prev = Endpoint::new(handle, DEFAULT_PORT_HANDLE);
    }
    let sink_handle = NodeHandle::new(Some(1), 9.to_string());
    dag.add_sink(sink_handle.clone(), vec![COUNTING_SINK_INPUT_PORT]).unwrap();
    ops.push(NodeOperator::Sink(sink));
    dag.connect(prev, Endpoint::new(sink_handle, COUNTING_SINK_INPUT_PORT)).unwrap();
    DagExecutor::new(dag, ops, ExecutorOptions::default()).unwrap().join()
}

#[test]
#[should_panic]
fn test_run_dag_proc_err_panic() {
    let count: u64 = 1_000_000;
    run_chain(
        TestSource::Generator { count, n: 0 },
        vec![TestProcessor::Error { err_on: 800_000, count: 0, panic: true }],
        TestSink::Counting { expected: count, current: 0 },
    )
    .unwrap();
}

#[test]
#[should_panic]
fn test_run_dag_proc_err_2() {
    let count: u64 = 1_000_000;
    run_chain(
        TestSource::Generator { count, n: 0 },
        vec![TestProcessor::Noop, TestProcessor::Error { err_on: 800_000, count: 0, panic: false }],
        TestSink::Counting { expected: count, current: 0 },
    )
    .unwrap();
}

#[test]
#[should_panic]
fn test_run_dag_proc_err_3() {
    let count: u64 = 1_000_000;
    run_chain(
        TestSource::Generator { count, n: 0 },
        vec![TestProcessor::Error { err_on: 800_000, count: 0, panic: false }, TestProcessor::Noop],
        TestSink::Counting { expected: count, current: 0 },
    )
    .unwrap();
}

#[test]
fn test_run_dag_src_err() {
    let count: u64 = 1_000_000;
    let result = run_chain(
        TestSource::ErrGenerator { count, err_at: 200_000, n: 0 },
        vec![TestProcessor::Noop],
        TestSink::Counting { expected: count, current: 0 },
    );
    match result {
        Err(ExecutionError::OperatorError { node, port, cause }) => {
            assert_eq!(node, NodeHandle::new(None, 1.to_string()));
            assert_eq!(port, None);
            assert_eq!(cause, "Generated Error");
        }
        other => panic!("unexpected result {other:?}"),
    }
}

#[test]
#[should_panic]
fn test_run_dag_sink_err() {
    let count: u64 = 1_000_000;
    run_chain(
        TestSource::Generator { count, n: 0 },
        vec![TestProcessor::Noop],
        TestSink::Failing { err_at: 200_000, current: 0, panic: false },
    )
    .unwrap();
}

#[test]
#[should_panic]
fn test_run_dag_sink_err_panic() {
    let count: u64 = 1_000_000;
    run_chain(
        TestSource::Generator { count, n: 0 },
        vec![TestProcessor::Noop],
        TestSink::Failing { err_at: 200_000, current: 0, panic: true },
    )
    .unwrap();
}

#[test]
fn processor_error_names_the_processor() {
    let result = run_chain(
        TestSource::Generator { count: 1_000, n: 0 },
        vec![TestProcessor::Error { err_on: 800, count: 0, panic: false }],
        TestSink::Counting { expected: 1_000, current: 0 },
    );
    match result {
        Err(ExecutionError::OperatorError { node, port, cause }) => {
            assert_eq!(node, NodeHandle::new(Some(1), 1.to_string()));
            assert_eq!(port, Some(DEFAULT_PORT_HANDLE));
            assert_eq!(cause, "Uknown");
        }
        other => panic!("unexpected result {other:?}"),
    }
}

#[test]
fn sink_error_is_reported() {
    let result = run_chain(
        TestSource::Generator { count: 1_000, n: 0 },
        vec![TestProcessor::Noop],
        TestSink::Failing { err_at: 200, current: 0, panic: false },
    );
    match result {
        Err(ExecutionError::OperatorError { node, cause, .. }) => {
            assert_eq!(node, NodeHandle::new(Some(1), 9.to_string()));
            assert_eq!(cause, "Generated error");
        }
        other => panic!("unexpected result {other:?}"),
    }
}
