use chrono::{DateTime, Duration};
use dozer_core::types::{Field, FieldDefinition, FieldType, Record, Schema, SourceDefinition};
use dozer_core::window::WindowType;

fn timestamp(text: &str) -> Field {
    Field::Timestamp(DateTime::parse_from_rfc3339(text).unwrap().timestamp_millis())
}

#[test]
fn test_hop() {
    let record = Record::new(
        None,
        vec![Field::Int(0), timestamp("2020-01-01T00:13:00Z")],
        Some(1),
    );

    let window = WindowType::Hop {
        column_index: 1,
        hop_size: Duration::minutes(1).num_milliseconds(),
        interval: Duration::minutes(5).num_milliseconds(),
    };
    let result = window.execute(&record).unwrap();
    assert_eq!(result.len(), 5);
    let window_record = result.get(0).unwrap();

    let expected_record = Record::new(
        None,
        vec![
            Field::Int(0),
            timestamp("2020-01-01T00:13:00Z"),
            timestamp("2020-01-01T00:09:00Z"),
            timestamp("2020-01-01T00:14:00Z"),
        ],
        Some(1),
    );

    assert_eq!(*window_record, expected_record);

    let window_record = result.get(1).unwrap();

    let expected_record = Record::new(
        None,
        vec![
            Field::Int(0),
            timestamp("2020-01-01T00:13:00Z"),
            timestamp("2020-01-01T00:10:00Z"),
            timestamp("2020-01-01T00:15:00Z"),
        ],
        Some(1),
    );

    assert_eq!(*window_record, expected_record);
}

#[test]
fn test_tumble() {
    let record = Record::new(
        None,
        vec![Field::Int(0), timestamp("2020-01-01T00:13:00Z")],
        Some(1),
    );

    let window = WindowType::Tumble {
        column_index: 1,
        interval: Duration::minutes(5).num_milliseconds(),
    };

    let result = window.execute(&record).unwrap();
    assert_eq!(result.len(), 1);
    let window_record = result.get(0).unwrap();

    let expected_record = Record::new(
        None,
        vec![
            Field::Int(0),
            timestamp("2020-01-01T00:13:00Z"),
            timestamp("2020-01-01T00:10:00Z"),
            timestamp("2020-01-01T00:15:00Z"),
        ],
        Some(1),
    );

    assert_eq!(*window_record, expected_record);
}

#[test]
fn test_window_schema() {
    let schema = Schema::empty()
        .field(
            FieldDefinition::new(String::from("id"), FieldType::Int, false, SourceDefinition::Dynamic),
            true,
        )
        .field(
            FieldDefinition::new(String::from("timestamp"), FieldType::Timestamp, false, SourceDefinition::Dynamic),
            false,
        )
        .clone();

    let window = WindowType::Tumble {
        column_index: 3,
        interval: Duration::seconds(10).num_milliseconds(),
    };

    let result = window.get_output_schema(&schema).unwrap();

    let mut expected_schema = Schema::empty()
        .field(
            FieldDefinition::new(String::from("id"), FieldType::Int, false, SourceDefinition::Dynamic),
            true,
        )
        .field(
            FieldDefinition::new(String::from("timestamp"), FieldType::Timestamp, false, SourceDefinition::Dynamic),
            false,
        )
        .field(
            FieldDefinition::new(String::from("window_start"), FieldType::Timestamp, false, SourceDefinition::Dynamic),
            false,
        )
        .field(
            FieldDefinition::new(String::from("window_end"), FieldType::Timestamp, false, SourceDefinition::Dynamic),
            false,
        )
        .clone();

    expected_schema.primary_index = vec![0, 2];

    assert_eq!(result, expected_schema);
}

#[test]
fn tumble_before_epoch_rounds_down() {
    let record = Record::new(None, vec![Field::Timestamp(-1)], None);
    let window = WindowType::Tumble { column_index: 0, interval: 1000 };
    let result = window.execute(&record).unwrap();
    assert_eq!(result[0].values, vec![Field::Timestamp(-1), Field::Timestamp(-1000), Field::Timestamp(0)]);
}

#[test]
fn window_errors() {
    let record = Record::new(None, vec![Field::Int(3)], None);
    let tumble = WindowType::Tumble { column_index: 0, interval: 1000 };
    assert_eq!(tumble.execute(&record), Err(dozer_core::window::WindowError::NotATimestamp));
    let far = WindowType::Tumble { column_index: 4, interval: 1000 };
    assert_eq!(far.execute(&record), Err(dozer_core::window::WindowError::InvalidColumn));
    let record = Record::new(None, vec![Field::Timestamp(5)], None);
    let zero = WindowType::Hop { column_index: 0, hop_size: 0, interval: 10 };
    assert_eq!(zero.execute(&record), Err(dozer_core::window::WindowError::InvalidInterval));
    let top = Record::new(None, vec![Field::Timestamp(i64::MAX - 1)], None);
    assert_eq!(tumble.execute(&top), Err(dozer_core::window::WindowError::OutOfRange));
}
