use dozer_core::aggregation::{validate_max, MaxAggregator};
use dozer_core::channel::BoundedQueue;
use dozer_core::dag::{Dag, DagError, NodeKind};
use dozer_core::decimal::Decimal;
use dozer_core::executor::Processor;
use dozer_core::epoch::{Arrival, Epoch, EpochClock, InputAligner, Step};
use dozer_core::expression::{Expression, ExpressionType, PipelineError};
use dozer_core::failure::RunState;
use dozer_core::projection::ProjectionProcessor;
use dozer_core::topology::{topological_order, Edge};
use dozer_core::types::{
    Endpoint, Field, FieldDefinition, FieldType, Lifetime, NodeHandle, Operation, OutputPortDef, OutputPortType,
    Record, Schema, SchemaIdentifier, SourceDefinition, DEFAULT_PORT_HANDLE,
};

fn h(id: &str) -> NodeHandle {
    NodeHandle::new(None, id.to_string())
}

fn out() -> Vec<OutputPortDef> {
    vec![OutputPortDef::new(DEFAULT_PORT_HANDLE, OutputPortType::Stateless)]
}

fn ep(id: &str) -> Endpoint {
    Endpoint::new(h(id), DEFAULT_PORT_HANDLE)
}

fn sample_dag() -> Dag {
    let mut dag = Dag::new();
    assert_eq!(dag.add_source(h("s"), out()), Ok(0));
    assert_eq!(dag.add_processor(h("a"), vec![DEFAULT_PORT_HANDLE], out()), Ok(1));
    assert_eq!(dag.add_processor(h("b"), vec![DEFAULT_PORT_HANDLE], out()), Ok(2));
    assert_eq!(dag.add_sink(h("k"), vec![DEFAULT_PORT_HANDLE]), Ok(3));
    dag
}

#[test]
fn duplicate_node_is_refused() {
    let mut dag = sample_dag();
    assert_eq!(dag.add_sink(h("a"), vec![DEFAULT_PORT_HANDLE]), Err(DagError::DuplicateNode));
    assert_eq!(dag.nodes.len(), 4);
    assert_eq!(dag.nodes[3].kind, NodeKind::Sink);
}

#[test]
fn connect_reports_each_error() {
    let mut dag = sample_dag();
    assert_eq!(dag.connect(ep("x"), ep("a")), Err(DagError::UnknownNode));
    assert_eq!(dag.connect(ep("k"), ep("a")), Err(DagError::PortKindMismatch));
    assert_eq!(dag.connect(ep("a"), ep("s")), Err(DagError::PortKindMismatch));
    assert_eq!(dag.connect(ep("s"), Endpoint::new(h("a"), 7)), Err(DagError::UnknownPort));
    assert_eq!(dag.connect(Endpoint::new(h("s"), 7), ep("a")), Err(DagError::UnknownPort));
    assert_eq!(dag.connect(ep("s"), ep("a")), Ok(()));
    assert_eq!(dag.connect(ep("s"), ep("a")), Err(DagError::DuplicateInputEdge));
    assert_eq!(dag.connect(ep("a"), ep("b")), Ok(()));
    assert_eq!(dag.connect(ep("b"), ep("a")), Err(DagError::DuplicateInputEdge));
    assert_eq!(dag.edges.len(), 2);
}

#[test]
fn connect_refuses_a_cycle() {
    let mut dag = Dag::new();
    dag.add_processor(h("a"), vec![1, 2], out()).unwrap();
    dag.add_processor(h("b"), vec![DEFAULT_PORT_HANDLE], out()).unwrap();
    assert_eq!(dag.connect(ep("a"), ep("b")), Ok(()));
    assert_eq!(dag.connect(ep("b"), Endpoint::new(h("a"), 1)), Err(DagError::CycleIntroduced));
    assert_eq!(dag.connect(ep("a"), Endpoint::new(h("a"), 2)), Err(DagError::CycleIntroduced));
    assert_eq!(dag.edges.len(), 1);
}

#[test]
fn validate_reports_missing_edges_and_orders_nodes() {
    let mut dag = sample_dag();
    assert_eq!(dag.validate(), Err(DagError::MissingInputEdge));
    dag.connect(ep("a"), ep("k")).unwrap();
    dag.connect(ep("b"), ep("a")).unwrap();
    assert_eq!(dag.validate(), Err(DagError::MissingInputEdge));
    let mut dag2 = Dag::new();
    dag2.add_source(h("s"), out()).unwrap();
    assert_eq!(dag2.validate(), Err(DagError::MissingOutputEdge));
    dag.connect(ep("s"), ep("b")).unwrap();
    let order = dag.validate().unwrap();
    let pos = |i: usize| order.iter().position(|&x| x == i).unwrap();
    assert_eq!(order.len(), 4);
    assert!(pos(0) < pos(2) && pos(2) < pos(1) && pos(1) < pos(3));
    assert_eq!(dag.input_edges(1).len(), 1);
    assert_eq!(dag.output_edges(0)[0].dst, 2);
}

#[test]
fn topological_order_detects_cycles() {
    let e = |src: usize, dst: usize| Edge { src, src_port: 0, dst, dst_port: 0 };
    assert_eq!(topological_order(3, &vec![e(0, 1), e(1, 2)]), Some(vec![0, 1, 2]));
    assert_eq!(topological_order(3, &vec![e(2, 1), e(1, 0)]), Some(vec![2, 1, 0]));
    assert_eq!(topological_order(3, &vec![e(0, 1), e(1, 2), e(2, 1)]), None);
    assert_eq!(topological_order(0, &vec![]), Some(vec![]));
}

#[test]
fn queue_is_fifo_and_bounded() {
    let mut q: BoundedQueue<u32> = BoundedQueue::new(2);
    assert!(q.is_empty());
    assert_eq!(q.try_send(1), Ok(()));
    assert_eq!(q.try_send(2), Ok(()));
    assert!(q.is_full());
    assert_eq!(q.try_send(3), Err(3));
    assert_eq!(q.try_recv(), Some(1));
    assert_eq!(q.try_send(3), Ok(()));
    assert_eq!(q.try_recv(), Some(2));
    assert_eq!(q.try_recv(), Some(3));
    assert_eq!(q.try_recv(), None);
    assert_eq!(q.len(), 0);
    assert_eq!(q.capacity(), 2);
}

#[test]
fn aligner_commits_when_every_input_has_the_marker() {
    let mut a = InputAligner::new(2);
    assert_eq!(a.on_arrival(0, Arrival::Op), Step::Process);
    assert_eq!(a.on_arrival(0, Arrival::Marker(0)), Step::Wait);
    assert!(!a.can_read(0));
    assert_eq!(a.on_arrival(0, Arrival::Op), Step::Violation);
    assert!(a.can_read(1));
    assert_eq!(a.on_arrival(1, Arrival::Op), Step::Process);
    assert_eq!(a.on_arrival(1, Arrival::Marker(0)), Step::Commit(0));
    assert!(a.can_read(0) && a.can_read(1));
    assert_eq!(a.pending_epoch(), 1);
    assert_eq!(a.on_arrival(1, Arrival::Marker(5)), Step::Violation);
    assert_eq!(a.on_arrival(1, Arrival::Marker(1)), Step::Wait);
    assert_eq!(a.on_arrival(0, Arrival::Terminate), Step::Commit(1));
    assert_eq!(a.on_arrival(1, Arrival::Terminate), Step::Finished);
}

#[test]
fn aligner_terminate_without_marker_waits() {
    let mut a = InputAligner::new(2);
    assert_eq!(a.on_arrival(0, Arrival::Terminate), Step::Wait);
    assert!(!a.can_read(0));
    assert_eq!(a.on_arrival(1, Arrival::Marker(0)), Step::Commit(0));
    assert_eq!(a.on_arrival(1, Arrival::Terminate), Step::Finished);
}

#[test]
fn epoch_clock_fires_on_count_or_time() {
    let mut c = EpochClock::new(100, 3, 0);
    assert_eq!(c.tick(10, 1), None);
    assert_eq!(c.tick(20, 1), None);
    assert_eq!(c.tick(30, 1), Some(0));
    assert_eq!(c.tick(50, 1), None);
    assert_eq!(c.tick(130, 0), Some(1));
    assert_eq!(c.tick(131, u64::MAX), Some(2));
    assert_eq!(c.tick(132, 0), None);
}

#[test]
fn first_error_wins() {
    let mut s: RunState<&str> = RunState::new();
    assert!(s.running());
    assert!(s.fail("first"));
    assert!(!s.fail("second"));
    assert!(!s.running());
    assert_eq!(s.into_first(), Some("first"));
    let mut t: RunState<&str> = RunState::new();
    t.cancel();
    assert!(!t.running());
    assert_eq!(t.into_first(), None);
}

fn schema() -> Schema {
    Schema::empty()
        .field(FieldDefinition::new("id".to_string(), FieldType::Int, false, SourceDefinition::Dynamic), true)
        .field(FieldDefinition::new("name".to_string(), FieldType::String, true, SourceDefinition::Dynamic), false)
        .clone()
}

#[test]
fn validate_max_types_its_argument() {
    let s = schema();
    assert_eq!(
        validate_max(&vec![Expression::Column { index: 0 }], &s),
        Ok(ExpressionType::new(FieldType::Int, true, SourceDefinition::Dynamic, false))
    );
    assert_eq!(validate_max(&vec![], &s), Err(PipelineError::NotEnoughArguments("MAX".to_string())));
    assert_eq!(
        validate_max(&vec![Expression::Column { index: 1 }], &s),
        Err(PipelineError::InvalidFunctionArgumentType(
            "MAX".to_string(),
            FieldType::String,
            vec![FieldType::Decimal, FieldType::UInt, FieldType::Int, FieldType::Float, FieldType::Timestamp, FieldType::Date],
            0
        ))
    );
    assert_eq!(validate_max(&vec![Expression::Column { index: 5 }], &s), Err(PipelineError::InvalidColumnIndex(5)));
    assert_eq!(
        validate_max(&vec![Expression::Literal(Field::Date(3))], &s),
        Ok(ExpressionType::new(FieldType::Date, true, SourceDefinition::Dynamic, false))
    );
}

#[test]
fn max_aggregator_tracks_the_largest_held_value() {
    let mut m = MaxAggregator::new();
    m.init(FieldType::Int);
    assert_eq!(m.insert(&[Field::Int(3)]), Ok(Field::Int(3)));
    assert_eq!(m.insert(&[Field::Int(7)]), Ok(Field::Int(7)));
    assert_eq!(m.insert(&[Field::Int(7), Field::Null]), Ok(Field::Int(7)));
    assert_eq!(m.delete(&[Field::Int(7)]), Ok(Field::Int(7)));
    assert_eq!(m.delete(&[Field::Int(7)]), Ok(Field::Int(3)));
    assert_eq!(m.update(&[Field::Int(3)], &[Field::Int(-2)]), Ok(Field::Int(-2)));
    assert_eq!(m.delete(&[Field::Int(-2)]), Ok(Field::Null));
    assert_eq!(m.delete(&[Field::Int(9)]), Ok(Field::Null));
}

#[test]
fn max_aggregator_converts_to_its_return_type() {
    let mut m = MaxAggregator::new();
    assert_eq!(m.insert(&[Field::UInt(4)]), Err(PipelineError::UnsupportedReturnType(None)));
    m.init(FieldType::Int);
    assert_eq!(m.insert(&[Field::UInt(5)]), Ok(Field::Int(5)));
    assert_eq!(m.insert(&[Field::UInt(u64::MAX)]), Err(PipelineError::InvalidReturnValue(FieldType::Int)));
    let mut t = MaxAggregator::new();
    t.init(FieldType::Timestamp);
    assert_eq!(t.insert(&[Field::Timestamp(10), Field::Timestamp(20)]), Ok(Field::Timestamp(20)));
    let mut f = MaxAggregator::new();
    f.init(FieldType::Float);
    assert_eq!(f.insert(&[Field::Int(1)]), Err(PipelineError::InvalidReturnValue(FieldType::Float)));
    let mut d = MaxAggregator::new();
    d.init(FieldType::Boolean);
    assert_eq!(d.insert(&[Field::Int(1)]), Err(PipelineError::UnsupportedReturnType(Some(FieldType::Boolean))));
    let mut s = MaxAggregator::new();
    s.init(FieldType::Date);
    assert_eq!(s.insert(&[Field::String("b".to_string()), Field::String("ab".to_string())]), Err(PipelineError::InvalidReturnValue(FieldType::Date)));
}

#[test]
fn projection_evaluates_expressions_in_order() {
    let mut p = ProjectionProcessor::new(
        schema(),
        vec![Expression::Column { index: 1 }, Expression::Literal(Field::UInt(9)), Expression::Column { index: 0 }],
    );
    let mut r = Record::new(Some(SchemaIdentifier { id: 4, version: 1 }), vec![Field::Int(1), Field::String("x".to_string())], Some(2));
    r.set_lifetime(Some(Lifetime { reference: 5, duration: 6 }));
    let mut expected = Record::new(None, vec![Field::String("x".to_string()), Field::UInt(9), Field::Int(1)], None);
    expected.set_lifetime(Some(Lifetime { reference: 5, duration: 6 }));
    assert_eq!(p.insert(&r), Ok(Operation::Insert { new: expected.clone() }));
    assert_eq!(p.delete(&r), Ok(Operation::Delete { old: expected.clone() }));
    let short = Record::new(None, vec![Field::Int(1)], None);
    assert_eq!(p.insert(&short), Err(PipelineError::InvalidColumnIndex(1)));
    assert_eq!(p.update(&r, &short), Err(PipelineError::InvalidColumnIndex(1)));
    assert_eq!(p.update(&r, &r), Ok(Operation::Update { old: expected.clone(), new: expected }));
}

#[test]
fn max_of_floats_follows_numeric_order() {
    let bits = |x: f64| Field::Float(x.to_bits());
    let mut m = MaxAggregator::new();
    m.init(FieldType::Float);
    assert_eq!(m.insert(&[bits(-2.0), bits(-0.5)]), Ok(bits(-0.5)));
    assert_eq!(m.insert(&[bits(-0.0)]), Ok(bits(-0.0)));
    assert_eq!(m.insert(&[bits(1.5)]), Ok(bits(1.5)));
    assert_eq!(m.insert(&[bits(f64::INFINITY)]), Ok(bits(f64::INFINITY)));
    assert_eq!(m.insert(&[bits(f64::NAN)]), Ok(bits(f64::NAN)));
    assert_eq!(m.delete(&[bits(f64::NAN), bits(f64::INFINITY)]), Ok(bits(1.5)));
}

#[test]
fn update_reports_the_first_failing_evaluation() {
    let p = ProjectionProcessor::new(schema(), vec![Expression::Column { index: 0 }, Expression::Column { index: 1 }]);
    let old = Record::new(None, vec![Field::Int(1)], None);
    let new = Record::new(None, vec![], None);
    assert_eq!(p.update(&old, &new), Err(PipelineError::InvalidColumnIndex(0)));
}

#[test]
fn process_forwards_one_projection_or_nothing() {
    let mut p = ProjectionProcessor::new(schema(), vec![Expression::Column { index: 1 }]);
    let mut fw = Vec::new();
    let r = Record::new(None, vec![Field::Int(1), Field::String("x".to_string())], None);
    assert_eq!(p.process(DEFAULT_PORT_HANDLE, Operation::Insert { new: r.clone() }, &mut fw), Ok(()));
    assert_eq!(fw.len(), 1);
    assert_eq!(fw[0], (DEFAULT_PORT_HANDLE, Operation::Insert { new: Record::new(None, vec![Field::String("x".to_string())], None) }));
    let short = Record::new(None, vec![Field::Int(1)], None);
    assert_eq!(
        p.process(DEFAULT_PORT_HANDLE, Operation::Delete { old: short }, &mut fw),
        Err("invalid column index 1".to_string())
    );
    assert_eq!(fw.len(), 1);
    assert_eq!(p.commit(&Epoch { id: 0, details: vec![] }), Ok(()));
}

#[test]
fn max_of_decimals_is_by_value() {
    let dec = |m: i128, s: u8| Field::Decimal(Decimal::new(m, s).unwrap());
    assert!(Decimal::new(1, 29).is_none());
    let mut m = MaxAggregator::new();
    m.init(FieldType::Decimal);
    assert_eq!(m.insert(&[dec(15, 1), dec(2, 0)]), Ok(dec(2, 0)));
    assert_eq!(m.insert(&[dec(200, 2)]), Ok(dec(2, 0)));
    assert_eq!(m.delete(&[dec(2000, 3)]), Ok(dec(2, 0)));
    assert_eq!(m.delete(&[dec(2, 0)]), Ok(dec(15, 1)));
    assert_eq!(m.insert(&[dec(-3, 0), dec(149999, 5)]), Ok(dec(15, 1)));
    let mut i = MaxAggregator::new();
    i.init(FieldType::Decimal);
    assert_eq!(i.insert(&[Field::Int(-4)]), Ok(dec(-4, 0)));
}

#[test]
fn float_zeros_are_one_value() {
    let bits = |x: f64| Field::Float(x.to_bits());
    let mut m = MaxAggregator::new();
    m.init(FieldType::Float);
    assert_eq!(m.insert(&[bits(0.0), bits(-0.0), bits(-1.0)]), Ok(bits(0.0)));
    assert_eq!(m.delete(&[bits(-0.0)]), Ok(bits(0.0)));
    assert_eq!(m.delete(&[bits(0.0)]), Ok(bits(-1.0)));
}

#[test]
fn field_order_and_equality() {
    let j = |s: &str| Field::Json(s.to_string());
    assert!(dozer_core::ordering::field_less(&j("[1]"), &j("[2]")));
    assert!(dozer_core::ordering::field_eq(&j("{}"), &j("{}")));
    assert!(dozer_core::ordering::field_eq(&Field::Float(0.0f64.to_bits()), &Field::Float((-0.0f64).to_bits())));
    let d = |m: i128, s: u8| Field::Decimal(Decimal::new(m, s).unwrap());
    assert!(dozer_core::ordering::field_eq(&d(10, 1), &d(1, 0)));
    assert!(dozer_core::ordering::field_less(&d(-11, 1), &d(-1, 0)));
    assert!(dozer_core::ordering::field_less(&Field::Int(5), &Field::Float(0)));
}
