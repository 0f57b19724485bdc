use intake_gateway::batch::{BuildError, ColumnData, ColumnarBatch};
use intake_gateway::worker::{process_json, process_payload, RawMessage};

fn column<'a>(batch: &'a ColumnarBatch, name: &str) -> &'a ColumnData {
    for (n, data) in batch.columns.iter() {
        if n == name {
            return data;
        }
    }
    panic!("no column named {}", name);
}

#[test]
fn round_trip_two_rows() {
    let r = process_payload(br#"[{"a":1,"b":"x"},{"a":2,"b":"y"}]"#);
    let batch = r.unwrap_or_else(|_| panic!("expected a batch"));
    assert_eq!(batch.columns.len(), 2);
    match column(&batch, "a") {
        ColumnData::Ints(v) => assert_eq!(v, &vec![1i64, 2]),
        _ => panic!("column a should hold integers"),
    }
    match column(&batch, "b") {
        ColumnData::Texts(v) => assert_eq!(v, &vec!["x".to_string(), "y".to_string()]),
        _ => panic!("column b should hold strings"),
    }
}

#[test]
fn timestamp_and_float_columns() {
    let r = process_payload(br#"{"timestamp": 1700000000, "v": 3.5}"#);
    let batch = r.unwrap_or_else(|_| panic!("expected a batch"));
    assert_eq!(batch.columns.len(), 2);
    match column(&batch, "timestamp") {
        ColumnData::Stamps(v) => assert_eq!(v, &vec![1700000000i64]),
        _ => panic!("timestamp column should hold epoch instants"),
    }
    match column(&batch, "v") {
        ColumnData::Floats(v) => {
            assert_eq!(v.len(), 1);
            assert_eq!(f64::from_bits(v[0]), 3.5);
        },
        _ => panic!("column v should hold floats"),
    }
}

#[test]
fn type_change_is_reported_not_fatal() {
    let r = process_payload(br#"[{"a":1},{"a":"oops"}]"#);
    match r {
        Err(BuildError::TypeMismatch { column, row }) => {
            assert_eq!(column, "a".to_string());
            assert_eq!(row, 1);
        },
        _ => panic!("expected a type mismatch"),
    }
}

#[test]
fn empty_object_yields_empty_payload() {
    assert!(matches!(process_payload(b"{}"), Err(BuildError::EmptyPayload)));
}

#[test]
fn empty_array_yields_empty_payload() {
    assert!(matches!(process_payload(b"[]"), Err(BuildError::EmptyPayload)));
}

#[test]
fn malformed_bytes_yield_malformed_payload() {
    assert!(matches!(process_payload(b"not json at all"), Err(BuildError::MalformedPayload)));
    assert!(matches!(process_payload(b"{\"a\": "), Err(BuildError::MalformedPayload)));
    assert!(matches!(process_payload(b""), Err(BuildError::MalformedPayload)));
}

#[test]
fn non_object_row_yields_malformed_row() {
    assert!(matches!(process_payload(b"[1,2]"), Err(BuildError::MalformedRow)));
    assert!(matches!(process_payload(b"5"), Err(BuildError::MalformedRow)));
    assert!(matches!(process_payload(br#"[{"a":1},7]"#), Err(BuildError::MalformedRow)));
}

#[test]
fn differing_field_sets_yield_ragged_rows() {
    assert!(matches!(
        process_payload(br#"[{"a":1},{"b":"x"}]"#),
        Err(BuildError::RaggedRows)
    ));
}

#[test]
fn unsupported_column_is_dropped() {
    let r = process_payload(br#"{"a": true, "b": 1}"#);
    let batch = r.unwrap_or_else(|_| panic!("expected a batch"));
    assert_eq!(batch.columns.len(), 1);
    match column(&batch, "b") {
        ColumnData::Ints(v) => assert_eq!(v, &vec![1i64]),
        _ => panic!("column b should hold integers"),
    }
}

#[test]
fn timestamp_name_with_float_first_value_is_a_float_column() {
    let r = process_payload(br#"{"timestamp": 3.5}"#);
    let batch = r.unwrap_or_else(|_| panic!("expected a batch"));
    match column(&batch, "timestamp") {
        ColumnData::Floats(v) => assert_eq!(f64::from_bits(v[0]), 3.5),
        _ => panic!("a float first value fixes a float column"),
    }
}

#[test]
fn timestamp_column_rejects_later_string() {
    let r = process_payload(br#"[{"timestamp": 1},{"timestamp": "x"}]"#);
    match r {
        Err(BuildError::TypeMismatch { column, row }) => {
            assert_eq!(column, "timestamp".to_string());
            assert_eq!(row, 1);
        },
        _ => panic!("expected a type mismatch"),
    }
}

#[test]
fn float_column_rejects_later_integer() {
    let r = process_payload(br#"[{"v":1.5},{"v":2}]"#);
    match r {
        Err(BuildError::TypeMismatch { column, row }) => {
            assert_eq!(column, "v".to_string());
            assert_eq!(row, 1);
        },
        _ => panic!("expected a type mismatch"),
    }
}

#[test]
fn huge_unsigned_number_becomes_a_float() {
    let r = process_payload(br#"{"a": 18446744073709551615}"#);
    let batch = r.unwrap_or_else(|_| panic!("expected a batch"));
    match column(&batch, "a") {
        ColumnData::Floats(v) => assert_eq!(f64::from_bits(v[0]), 18446744073709551615u64 as f64),
        _ => panic!("an integer beyond i64 range is carried as a float"),
    }
}

#[test]
fn process_json_keeps_the_collection_name() {
    let msg = RawMessage {
        accepted: 0,
        index: "dockerAgentEvents".to_string(),
        body: br#"{"a":1}"#.to_vec(),
    };
    let (index, batch) = process_json(msg).unwrap_or_else(|_| panic!("expected a batch"));
    assert_eq!(index, "dockerAgentEvents".to_string());
    assert_eq!(batch.columns.len(), 1);
}

#[test]
fn process_json_reports_failures() {
    let msg = RawMessage {
        accepted: 0,
        index: "dockerAgentEvents".to_string(),
        body: b"oops".to_vec(),
    };
    assert!(matches!(process_json(msg), Err(BuildError::MalformedPayload)));
}

#[test]
fn null_first_value_drops_the_column() {
    let r = process_payload(br#"{"a": null}"#);
    let batch = r.unwrap_or_else(|_| panic!("expected a batch"));
    assert_eq!(batch.columns.len(), 0);
}

#[test]
fn empty_object_rows_do_not_count() {
    let r = process_payload(br#"[{}, {"a":1}]"#);
    let batch = r.unwrap_or_else(|_| panic!("expected a batch"));
    assert_eq!(batch.columns.len(), 1);
    match column(&batch, "a") {
        ColumnData::Ints(v) => assert_eq!(v, &vec![1i64]),
        _ => panic!("column a should hold integers"),
    }
}
