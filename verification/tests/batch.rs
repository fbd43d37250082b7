use bytes::BytesMut;
use kudu::batch::RowBatch;
use kudu::error::Error;
use kudu::pb::RowwiseRowBlockPb;
use kudu::row::Value;
use kudu::schema::{ColumnSchema, DataType, Schema};

fn block(num_rows: i32, rows: Option<i32>, indirect: Option<i32>) -> RowwiseRowBlockPb {
    RowwiseRowBlockPb { num_rows: Some(num_rows), rows_sidecar: rows, indirect_data_sidecar: indirect }
}

fn schema(columns: Vec<(&str, DataType, bool)>) -> Schema {
    Schema::new(
        columns.into_iter().map(|(n, t, nullable)| ColumnSchema::new(n, t, nullable)).collect(),
        0,
    )
    .unwrap()
}

fn is_serialization<T>(result: Result<T, Error>) -> bool {
    matches!(result, Err(Error::Serialization(_)))
}

#[test]
fn decoder_rejects_a_length_that_does_not_match() {
    let s = schema(vec![("a", DataType::Int32, false)]);
    let made = RowBatch::new(s.clone(), block(2, Some(0), None), vec![BytesMut::from(&[0u8; 7][..])]);
    assert!(is_serialization(made));
    let made = RowBatch::new(s.clone(), block(2, Some(0), None), vec![BytesMut::from(&[0u8; 9][..])]);
    assert!(is_serialization(made));
    let made = RowBatch::new(s, block(2, Some(0), None), vec![BytesMut::from(&[0u8; 8][..])]);
    assert_eq!(made.ok().unwrap().num_rows(), 2);
}

#[test]
fn decoder_rejects_a_negative_sidecar_index() {
    let s = schema(vec![("a", DataType::Int32, false)]);
    assert!(is_serialization(RowBatch::new(s.clone(), block(0, Some(-1), None), vec![BytesMut::new()])));
    assert!(is_serialization(RowBatch::new(s, block(0, Some(0), Some(-1)), vec![BytesMut::new()])));
}

#[test]
fn decoder_rejects_a_missing_rows_sidecar() {
    let s = schema(vec![("a", DataType::Int32, false)]);
    assert!(is_serialization(RowBatch::new(s.clone(), block(0, None, None), vec![BytesMut::new()])));
    assert!(is_serialization(RowBatch::new(s.clone(), block(0, Some(1), None), vec![BytesMut::new()])));
    assert!(is_serialization(RowBatch::new(s.clone(), block(0, Some(0), None), Vec::new())));
    assert!(is_serialization(RowBatch::new(s, block(0, Some(0), Some(3)), vec![BytesMut::new()])));
}

#[test]
fn decoder_rejects_a_negative_number_of_rows() {
    let s = schema(Vec::new());
    assert!(is_serialization(RowBatch::new(s, block(-1, Some(0), None), vec![BytesMut::new()])));
}

#[test]
fn an_empty_projection_counts_rows_without_data() {
    let s = schema(Vec::new());
    let batch = RowBatch::new(s.clone(), block(42, Some(0), None), vec![BytesMut::new()]).ok().unwrap();
    assert_eq!(batch.num_rows(), 42);
    assert_eq!(batch.row_len(), 0);
    assert_eq!(batch.into_iter().len(), 42);
    assert!(is_serialization(RowBatch::new(s, block(1, Some(0), None), vec![BytesMut::from(&[1u8][..])])));
}

#[test]
fn row_length_counts_the_null_bitmap_only_with_nullable_columns() {
    let plain = schema(vec![("a", DataType::Int64, false), ("b", DataType::String, false)]);
    let batch = RowBatch::new(plain, block(0, Some(0), None), vec![BytesMut::new()]).ok().unwrap();
    assert_eq!(batch.row_len(), 24);
    let mut columns = vec![("n", DataType::Bool, true)];
    for _ in 0..8 {
        columns.push(("c", DataType::Int8, false));
    }
    let nullable = schema(columns);
    let batch = RowBatch::new(nullable, block(0, Some(0), None), vec![BytesMut::new()]).ok().unwrap();
    assert_eq!(batch.row_len(), 9 + 2);
}

#[test]
fn fixed_width_values_are_little_endian() {
    let s = schema(vec![
        ("b", DataType::Bool, false),
        ("i8", DataType::Int8, false),
        ("i16", DataType::Int16, false),
        ("i32", DataType::Int32, false),
        ("i64", DataType::Int64, false),
        ("ts", DataType::Timestamp, false),
        ("f", DataType::Float, false),
        ("d", DataType::Double, false),
    ]);
    let mut data = BytesMut::new();
    data.extend_from_slice(&[1]);
    data.extend_from_slice(&(-2i8).to_le_bytes());
    data.extend_from_slice(&(-300i16).to_le_bytes());
    data.extend_from_slice(&(0x01020304i32).to_le_bytes());
    data.extend_from_slice(&(i64::MIN).to_le_bytes());
    data.extend_from_slice(&(-1i64).to_le_bytes());
    data.extend_from_slice(&(1.5f32).to_le_bytes());
    data.extend_from_slice(&(-2.25f64).to_le_bytes());
    let batch = RowBatch::new(s, block(1, Some(0), None), vec![data]).ok().unwrap();
    assert_eq!(batch.row_len(), 36);
    assert_eq!(batch.value(0, 0).unwrap(), Some(Value::Bool(true)));
    assert_eq!(batch.value(0, 1).unwrap(), Some(Value::Int8(-2)));
    assert_eq!(batch.value(0, 2).unwrap(), Some(Value::Int16(-300)));
    assert_eq!(batch.value(0, 3).unwrap(), Some(Value::Int32(0x01020304)));
    assert_eq!(batch.value(0, 4).unwrap(), Some(Value::Int64(i64::MIN)));
    assert_eq!(batch.value(0, 5).unwrap(), Some(Value::Timestamp(-1)));
    assert_eq!(batch.value(0, 6).unwrap(), Some(Value::Float(1.5f32.to_bits())));
    assert_eq!(batch.value(0, 7).unwrap(), Some(Value::Double((-2.25f64).to_bits())));
    assert!(matches!(batch.value(1, 0), Err(Error::InvalidArgument(_))));
    assert!(matches!(batch.value(0, 8), Err(Error::InvalidArgument(_))));
}

fn var_len_batch() -> RowBatch {
    let s = schema(vec![("s", DataType::String, true), ("k", DataType::Int32, false), ("b", DataType::Binary, true)]);
    let indirect = BytesMut::from(&b"helloworld\xff"[..]);
    let mut data = BytesMut::new();
    // Row 0: s = "hello", k = 7, b = "world\xff".
    data.extend_from_slice(&0u64.to_le_bytes());
    data.extend_from_slice(&5u64.to_le_bytes());
    data.extend_from_slice(&7i32.to_le_bytes());
    data.extend_from_slice(&5u64.to_le_bytes());
    data.extend_from_slice(&6u64.to_le_bytes());
    data.extend_from_slice(&[0b000]);
    // Row 1: s null, k = -1, b reaches past the indirect data.
    data.extend_from_slice(&0u64.to_le_bytes());
    data.extend_from_slice(&0u64.to_le_bytes());
    data.extend_from_slice(&(-1i32).to_le_bytes());
    data.extend_from_slice(&10u64.to_le_bytes());
    data.extend_from_slice(&2u64.to_le_bytes());
    data.extend_from_slice(&[0b001]);
    // Row 2: s is not UTF-8, b null.
    data.extend_from_slice(&10u64.to_le_bytes());
    data.extend_from_slice(&1u64.to_le_bytes());
    data.extend_from_slice(&0i32.to_le_bytes());
    data.extend_from_slice(&u64::MAX.to_le_bytes());
    data.extend_from_slice(&u64::MAX.to_le_bytes());
    data.extend_from_slice(&[0b100]);
    RowBatch::new(s, block(3, Some(1), Some(0)), vec![indirect, data]).ok().unwrap()
}

#[test]
fn variable_length_values_come_from_the_indirect_data() {
    let batch = var_len_batch();
    assert_eq!(batch.row_len(), 16 + 4 + 16 + 1);
    assert_eq!(batch.value(0, 0).unwrap(), Some(Value::String("hello".to_string())));
    assert_eq!(batch.value(0, 1).unwrap(), Some(Value::Int32(7)));
    assert_eq!(batch.value(0, 2).unwrap(), Some(Value::Binary(b"world\xff".to_vec())));
}

#[test]
fn a_set_bit_in_the_bitmap_means_null() {
    let batch = var_len_batch();
    assert_eq!(batch.value(1, 0).unwrap(), None);
    assert_eq!(batch.value(1, 1).unwrap(), Some(Value::Int32(-1)));
    assert_eq!(batch.value(2, 2).unwrap(), None);
}

#[test]
fn a_value_past_the_indirect_data_is_a_serialization_error() {
    let batch = var_len_batch();
    assert!(is_serialization(batch.value(1, 2)));
    assert!(is_serialization(batch.value(2, 0)));
}

#[test]
fn an_indirect_sidecar_named_twice_is_found_empty() {
    let s = schema(vec![("k", DataType::Int8, false)]);
    let data = BytesMut::from(&[5u8][..]);
    let batch = RowBatch::new(s, block(1, Some(0), Some(0)), vec![data]).ok().unwrap();
    assert_eq!(batch.value(0, 0).unwrap(), Some(Value::Int8(5)));
}

#[test]
fn rows_come_in_order_from_either_end() {
    let s = schema(vec![("k", DataType::Int8, false)]);
    let data = BytesMut::from(&[10u8, 11, 12, 13][..]);
    let batch = RowBatch::new(s, block(4, Some(0), None), vec![data]).ok().unwrap();
    let mut iter = batch.into_iter();
    assert_eq!(iter.len(), 4);
    let first = iter.next().unwrap();
    assert_eq!(first.index(), 0);
    assert_eq!(first.get(0).unwrap(), Some(Value::Int8(10)));
    let last = iter.next_back().unwrap();
    assert_eq!(last.index(), 3);
    assert_eq!(last.get(0).unwrap(), Some(Value::Int8(13)));
    assert_eq!(iter.len(), 2);
    assert_eq!(iter.next().unwrap().index(), 1);
    assert_eq!(iter.next_back().unwrap().index(), 2);
    assert_eq!(iter.len(), 0);
    assert!(iter.next().is_none());
    assert!(iter.next_back().is_none());
    assert!(iter.next().is_none());
    assert!(matches!(last.get(1), Err(Error::InvalidArgument(_))));
}

#[test]
fn without_an_indirect_sidecar_only_empty_values_can_be_read() {
    let s = schema(vec![("s", DataType::Binary, false)]);
    let mut data = BytesMut::new();
    data.extend_from_slice(&0u64.to_le_bytes());
    data.extend_from_slice(&0u64.to_le_bytes());
    data.extend_from_slice(&0u64.to_le_bytes());
    data.extend_from_slice(&1u64.to_le_bytes());
    let batch = RowBatch::new(s, block(2, Some(0), None), vec![data]).ok().unwrap();
    assert_eq!(batch.value(0, 0).unwrap(), Some(Value::Binary(Vec::new())));
    assert_eq!(batch.bytes(0, 0).unwrap(), Some(&[][..]));
    assert!(is_serialization(batch.value(1, 0)));
    assert!(is_serialization(batch.bytes(1, 0)));
}

#[test]
fn the_bytes_of_a_value_are_borrowed_from_the_batch() {
    let batch = var_len_batch();
    assert_eq!(batch.bytes(0, 0).unwrap(), Some(&b"hello"[..]));
    assert_eq!(batch.bytes(0, 2).unwrap(), Some(&b"world\xff"[..]));
    assert_eq!(batch.bytes(1, 0).unwrap(), None);
    assert_eq!(batch.bytes(2, 0).unwrap(), Some(&b"\xff"[..]));
    assert!(matches!(batch.bytes(0, 1), Err(Error::InvalidArgument(_))));
    assert!(matches!(batch.bytes(3, 0), Err(Error::InvalidArgument(_))));
    assert!(matches!(batch.bytes(0, 3), Err(Error::InvalidArgument(_))));
}
