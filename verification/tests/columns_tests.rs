use jsonl_compactor::columns::batches_to_json_rows;
use jsonl_compactor::columns::convert_column_to_json;
use jsonl_compactor::columns::Column;
use jsonl_compactor::columns::ColumnBatch;
use jsonl_compactor::columns::ColumnData;
use jsonl_compactor::columns::ColumnError;
use jsonl_compactor::columns::Strictness;
use jsonl_compactor::json::JsonValue;

fn text(s: &str) -> Option<String> {
    Some(s.to_string())
}

fn column(name: &str, data: ColumnData) -> Column {
    Column { name: name.to_string(), data }
}

fn sample_columns() -> Vec<Column> {
    vec![
        column("blob_id", ColumnData::Utf8(vec![text("b0"), text("b1"), None])),
        column("length", ColumnData::Int64(vec![Some(10), None, Some(-3)])),
        column("is_vendor", ColumnData::Boolean(vec![Some(true), Some(false), None])),
        column("score", ColumnData::Unsupported(3)),
        column(
            "licenses",
            ColumnData::Utf8List(vec![
                Some(vec![text("MIT"), None, text("Apache-2.0")]),
                None,
                Some(Vec::new()),
            ]),
        ),
        column(
            "visited",
            ColumnData::TimestampNanosecond(vec![Some(1_700_000_000_123_456_789), None, Some(0)]),
        ),
    ]
}

fn sample_batch() -> ColumnBatch {
    ColumnBatch::try_new(sample_columns(), 3).unwrap()
}

#[test]
fn string_cells() {
    let cells = ColumnData::Utf8(vec![text("x"), None, text("")]);
    assert_eq!(convert_column_to_json(&cells, 0), Ok(JsonValue::String("x".to_string())));
    assert_eq!(convert_column_to_json(&cells, 1), Ok(JsonValue::Null));
    assert_eq!(convert_column_to_json(&cells, 2), Ok(JsonValue::String(String::new())));
}

#[test]
fn integer_cells() {
    let cells = ColumnData::Int64(vec![Some(i64::MIN), None, Some(7)]);
    assert_eq!(convert_column_to_json(&cells, 0), Ok(JsonValue::Number(i64::MIN)));
    assert_eq!(convert_column_to_json(&cells, 1), Ok(JsonValue::Null));
    assert_eq!(convert_column_to_json(&cells, 2), Ok(JsonValue::Number(7)));
}

#[test]
fn boolean_cells() {
    let cells = ColumnData::Boolean(vec![Some(true), None, Some(false)]);
    assert_eq!(convert_column_to_json(&cells, 0), Ok(JsonValue::Bool(true)));
    assert_eq!(convert_column_to_json(&cells, 1), Ok(JsonValue::Null));
    assert_eq!(convert_column_to_json(&cells, 2), Ok(JsonValue::Bool(false)));
}

#[test]
fn list_cells_drop_their_null_entries() {
    let cells = ColumnData::Utf8List(vec![
        Some(vec![None, text("a"), None, text("b"), None]),
        None,
        Some(vec![None, None]),
        Some(Vec::new()),
    ]);
    assert_eq!(
        convert_column_to_json(&cells, 0),
        Ok(JsonValue::Array(vec!["a".to_string(), "b".to_string()]))
    );
    assert_eq!(convert_column_to_json(&cells, 1), Ok(JsonValue::Null));
    assert_eq!(convert_column_to_json(&cells, 2), Ok(JsonValue::Array(Vec::new())));
    assert_eq!(convert_column_to_json(&cells, 3), Ok(JsonValue::Array(Vec::new())));
}

#[test]
fn timestamp_cells_are_epoch_integers() {
    let cells = ColumnData::TimestampNanosecond(vec![Some(1_700_000_000_000_000_000), None]);
    assert_eq!(
        convert_column_to_json(&cells, 0),
        Ok(JsonValue::Number(1_700_000_000_000_000_000))
    );
    assert_eq!(convert_column_to_json(&cells, 1), Ok(JsonValue::Null));
}

#[test]
fn unsupported_cells_fail() {
    let cells = ColumnData::Unsupported(2);
    assert_eq!(convert_column_to_json(&cells, 0), Err(ColumnError::UnsupportedColumnType));
    assert_eq!(convert_column_to_json(&cells, 1), Err(ColumnError::UnsupportedColumnType));
    assert_eq!(cells.len(), 2);
}

#[test]
fn a_batch_needs_columns_of_its_row_count() {
    assert!(ColumnBatch::try_new(sample_columns(), 3).is_ok());
    assert_eq!(ColumnBatch::try_new(sample_columns(), 2), Err(sample_columns()));
    let mut uneven = sample_columns();
    uneven.push(column("extra", ColumnData::Int64(vec![Some(1)])));
    assert_eq!(ColumnBatch::try_new(uneven.clone(), 3), Err(uneven));
    let empty = ColumnBatch::try_new(Vec::new(), 5).unwrap();
    assert_eq!(empty.num_rows(), 5);
    assert_eq!(empty.num_columns(), 0);
}

#[test]
fn a_lenient_row_leaves_unsupported_columns_out() {
    let batch = sample_batch();
    let row = batch.materialize_row(0, Strictness::Lenient).unwrap();
    assert_eq!(
        row.to_json_line(),
        "{\"blob_id\":\"b0\",\"length\":10,\"is_vendor\":true,\"licenses\":[\"MIT\",\"Apache-2.0\"],\"visited\":1700000000123456789}\n"
    );
    let row = batch.materialize_row(1, Strictness::Lenient).unwrap();
    assert_eq!(
        row.to_json_line(),
        "{\"blob_id\":\"b1\",\"length\":null,\"is_vendor\":false,\"licenses\":null,\"visited\":null}\n"
    );
    let row = batch.materialize_row(2, Strictness::Lenient).unwrap();
    assert_eq!(
        row.to_json_line(),
        "{\"blob_id\":null,\"length\":-3,\"is_vendor\":null,\"licenses\":[],\"visited\":0}\n"
    );
    assert_eq!(row.get("score"), None);
}

#[test]
fn a_strict_row_fails_on_unsupported_columns() {
    let batch = sample_batch();
    assert_eq!(
        batch.materialize_row(0, Strictness::Strict),
        Err(ColumnError::UnsupportedColumnType)
    );
    assert_eq!(batch.materialize(Strictness::Strict), Err(ColumnError::UnsupportedColumnType));
    let supported = ColumnBatch::try_new(
        vec![column("n", ColumnData::Int64(vec![Some(1), Some(2)]))],
        2,
    )
    .unwrap();
    let rows = supported.materialize(Strictness::Strict).unwrap();
    assert_eq!(rows.len(), 2);
    assert_eq!(rows[1].to_json_line(), "{\"n\":2}\n");
    let no_rows = ColumnBatch::try_new(vec![column("s", ColumnData::Unsupported(0))], 0).unwrap();
    assert_eq!(no_rows.materialize(Strictness::Strict), Ok(Vec::new()));
}

#[test]
fn a_repeated_column_name_keeps_the_later_value() {
    let batch = ColumnBatch::try_new(
        vec![
            column("a", ColumnData::Int64(vec![Some(1)])),
            column("b", ColumnData::Int64(vec![Some(2)])),
            column("a", ColumnData::Int64(vec![Some(3)])),
        ],
        1,
    )
    .unwrap();
    let row = batch.materialize_row(0, Strictness::Lenient).unwrap();
    assert_eq!(row.to_json_line(), "{\"a\":3,\"b\":2}\n");
}

#[test]
fn rows_keep_batch_and_index_order() {
    let first = ColumnBatch::try_new(
        vec![column("n", ColumnData::Int64(vec![Some(0), Some(1), Some(2)]))],
        3,
    )
    .unwrap();
    let second = ColumnBatch::try_new(vec![column("n", ColumnData::Int64(Vec::new()))], 0).unwrap();
    let third = ColumnBatch::try_new(
        vec![column("n", ColumnData::Int64(vec![Some(3), Some(4)]))],
        2,
    )
    .unwrap();
    let rows = batches_to_json_rows(&vec![first, second, third], Strictness::Lenient).unwrap();
    let lines: Vec<String> = rows.iter().map(|row| row.to_json_line()).collect();
    assert_eq!(
        lines,
        vec!["{\"n\":0}\n", "{\"n\":1}\n", "{\"n\":2}\n", "{\"n\":3}\n", "{\"n\":4}\n"]
    );
    assert_eq!(batches_to_json_rows(&Vec::new(), Strictness::Strict), Ok(Vec::new()));
}

#[test]
fn strict_batches_fail_on_an_unsupported_column() {
    let good = ColumnBatch::try_new(vec![column("n", ColumnData::Int64(vec![Some(0)]))], 1).unwrap();
    let bad = sample_batch();
    assert_eq!(
        batches_to_json_rows(&vec![good, bad], Strictness::Strict),
        Err(ColumnError::UnsupportedColumnType)
    );
}
