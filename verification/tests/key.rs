use kudu::key::{
    decode_binary, decode_primary_key, decode_value_from, encode_binary, encode_primary_key,
    encode_value_into, murmur2_64,
};
use kudu::row::{Row, Value};
use kudu::schema::{ColumnSchema, DataType, Schema};

fn key_schema(types: &[DataType]) -> Schema {
    let mut columns = Vec::new();
    for (i, t) in types.iter().enumerate() {
        columns.push(ColumnSchema::new(&format!("c{}", i), *t, false));
    }
    Schema::new(columns, types.len()).unwrap()
}

fn encode(values: Vec<Value>) -> Vec<u8> {
    let types: Vec<DataType> = values.iter().map(|v| v.data_type()).collect();
    let mut row = Row::new(key_schema(&types));
    for (i, v) in values.into_iter().enumerate() {
        row.set(i, v).unwrap();
    }
    encode_primary_key(&row)
}

#[test]
fn test_murmur2_64() {
    assert_eq!(7115271465109541368, murmur2_64(b"ab", 0));
    assert_eq!(2601573339036254301, murmur2_64(b"abcdefg", 0));
    assert_eq!(3575930248840144026, murmur2_64(b"quick brown fox", 42));
}

#[test]
fn primary_key_encode_decode() {
    let columns = vec![
        ColumnSchema::new("a", DataType::String, false),
        ColumnSchema::new("b", DataType::Int32, false),
        ColumnSchema::new("c", DataType::String, false),
    ];
    let schema = Schema::new(columns, 3).unwrap();

    {
        let mut row = Row::new(schema.clone());
        assert_eq!(row.schema(), &schema);
        row.set(0, Value::String("fuzz\0\0\0\0buster".to_string())).unwrap();
        row.set(1, Value::Int32(99)).unwrap();
        row.set(2, Value::String("calibri\0\0\0".to_string())).unwrap();
        let key = encode_primary_key(&row);

        let decoded_row = decode_primary_key(&schema, &key).unwrap();
        assert_eq!(row, decoded_row);
    }
}

#[test]
fn murmur_of_nothing_depends_on_the_seed_alone() {
    assert_eq!(murmur2_64(b"", 0), 0);
    assert_ne!(murmur2_64(b"", 1), murmur2_64(b"", 2));
}

#[test]
fn murmur_reads_whole_blocks_least_significant_byte_first() {
    // Sixteen bytes: two whole blocks and no tail.
    let a = murmur2_64(b"0123456789abcdef", 7);
    let b = murmur2_64(b"1023456789abcdef", 7);
    assert_ne!(a, b);
    assert_eq!(a, murmur2_64(b"0123456789abcdef", 7));
}

#[test]
fn int32_key_is_big_endian_with_the_sign_flipped() {
    assert_eq!(encode(vec![Value::Int32(0)]), vec![0x80, 0, 0, 0]);
    assert_eq!(encode(vec![Value::Int32(1)]), vec![0x80, 0, 0, 1]);
    assert_eq!(encode(vec![Value::Int32(-1)]), vec![0x7f, 0xff, 0xff, 0xff]);
    assert_eq!(encode(vec![Value::Int32(i32::MIN)]), vec![0, 0, 0, 0]);
    assert_eq!(encode(vec![Value::Int32(i32::MAX)]), vec![0xff, 0xff, 0xff, 0xff]);
    assert_eq!(encode(vec![Value::Int32(0x01020304)]), vec![0x81, 2, 3, 4]);
}

#[test]
fn int64_key_takes_eight_bytes() {
    assert_eq!(encode(vec![Value::Int64(0)]), vec![0x80, 0, 0, 0, 0, 0, 0, 0]);
    assert_eq!(
        encode(vec![Value::Int64(0x0102030405060708)]),
        vec![0x81, 2, 3, 4, 5, 6, 7, 8]
    );
    assert_eq!(encode(vec![Value::Int64(-1)]), vec![0x7f, 0xff, 0xff, 0xff, 0xff, 0xff, 0xff, 0xff]);
    assert_eq!(encode(vec![Value::Timestamp(1)]), vec![0x80, 0, 0, 0, 0, 0, 0, 1]);
}

#[test]
fn small_integers_and_bools() {
    assert_eq!(encode(vec![Value::Bool(false)]), vec![0]);
    assert_eq!(encode(vec![Value::Bool(true)]), vec![1]);
    assert_eq!(encode(vec![Value::Int8(0)]), vec![0x80]);
    assert_eq!(encode(vec![Value::Int8(-128)]), vec![0]);
    assert_eq!(encode(vec![Value::Int8(127)]), vec![0xff]);
    assert_eq!(encode(vec![Value::Int16(0x0102)]), vec![0x81, 0x02]);
    assert_eq!(encode(vec![Value::Int16(-1)]), vec![0x7f, 0xff]);
}

#[test]
fn float_keys_flip_the_sign_bit_or_every_bit() {
    assert_eq!(encode(vec![Value::Float(1.0f32.to_bits())]), vec![0xbf, 0x80, 0, 0]);
    assert_eq!(encode(vec![Value::Float(0.0f32.to_bits())]), vec![0x80, 0, 0, 0]);
    assert_eq!(encode(vec![Value::Float((-0.0f32).to_bits())]), vec![0x7f, 0xff, 0xff, 0xff]);
    assert_eq!(encode(vec![Value::Float((-1.0f32).to_bits())]), vec![0x40, 0x7f, 0xff, 0xff]);
    assert_eq!(
        encode(vec![Value::Double(1.0f64.to_bits())]),
        vec![0xbf, 0xf0, 0, 0, 0, 0, 0, 0]
    );
}

#[test]
fn codec_order_int32_seeds() {
    let a = encode(vec![Value::Int32(-1)]);
    let b = encode(vec![Value::Int32(0)]);
    let c = encode(vec![Value::Int32(1)]);
    assert!(a < b);
    assert!(b < c);
}

#[test]
fn codec_order_string_then_int_seeds() {
    let a = encode(vec![Value::String("a".to_string()), Value::Int32(0)]);
    let b = encode(vec![Value::String("a\0".to_string()), Value::Int32(0)]);
    let c = encode(vec![Value::String("b".to_string()), Value::Int32(0)]);
    assert!(a < b);
    assert!(b < c);
}

#[test]
fn codec_order_double_seeds() {
    let values = [-1.0f64, -0.0, 0.0, 1.0];
    let keys: Vec<Vec<u8>> =
        values.iter().map(|v| encode(vec![Value::Double(v.to_bits())])).collect();
    assert!(keys[0] < keys[1]);
    assert!(keys[1] < keys[2]);
    assert!(keys[2] < keys[3]);
}

#[test]
fn binary_not_last_is_escaped_and_terminated() {
    let mut buf = vec![9u8];
    encode_binary(&[1, 0, 2], false, &mut buf);
    assert_eq!(buf, vec![9, 1, 0, 1, 2, 0, 0]);

    let mut empty = Vec::new();
    encode_binary(&[], false, &mut empty);
    assert_eq!(empty, vec![0, 0]);

    let mut zeros = Vec::new();
    encode_binary(&[0, 0], false, &mut zeros);
    assert_eq!(zeros, vec![0, 1, 0, 1, 0, 0]);
}

#[test]
fn binary_last_is_raw() {
    let mut buf = vec![9u8];
    encode_binary(&[1, 0, 2], true, &mut buf);
    assert_eq!(buf, vec![9, 1, 0, 2]);
}

#[test]
fn decode_binary_leaves_what_follows_the_separator() {
    let key = [1u8, 0, 1, 2, 0, 0, 7, 8];
    let (rest, value) = decode_binary(&key, false).unwrap();
    assert_eq!(value, vec![1, 0, 2]);
    assert_eq!(rest, &[7u8, 8][..]);

    let (rest, value) = decode_binary(&key, true).unwrap();
    assert_eq!(value, key.to_vec());
    assert!(rest.is_empty());
}

#[test]
fn decode_binary_rejects_malformed_escapes() {
    assert!(decode_binary(&[1, 2, 3], false).is_err());
    assert!(decode_binary(&[1, 0], false).is_err());
    assert!(decode_binary(&[1, 0, 2, 0, 0], false).is_err());
    assert!(decode_binary(&[], false).is_err());
    let error = decode_binary(&[1, 0, 9], false).unwrap_err();
    assert!(matches!(error, kudu::error::Error::Serialization(_)));
}

#[test]
fn decode_rejects_truncated_and_trailing_bytes() {
    let schema = key_schema(&[DataType::Int32]);
    assert!(decode_primary_key(&schema, &[0x80, 0, 0]).is_err());
    assert!(decode_primary_key(&schema, &[0x80, 0, 0, 0, 0]).is_err());
    assert!(decode_primary_key(&schema, &[]).is_err());
    let row = decode_primary_key(&schema, &[0x80, 0, 0, 5]).unwrap();
    assert_eq!(row.get(0), Some(&Value::Int32(5)));
}

#[test]
fn decode_rejects_strings_that_are_not_utf8() {
    let schema = key_schema(&[DataType::String]);
    assert!(decode_primary_key(&schema, &[0xff, 0xfe]).is_err());
    let binary = key_schema(&[DataType::Binary]);
    let row = decode_primary_key(&binary, &[0xff, 0xfe]).unwrap();
    assert_eq!(row.get(0), Some(&Value::Binary(vec![0xff, 0xfe])));
}

#[test]
fn every_type_round_trips() {
    let values = vec![
        Value::Bool(true),
        Value::Int8(-7),
        Value::Int16(-300),
        Value::Int32(i32::MIN),
        Value::Int64(i64::MAX),
        Value::Timestamp(-1_000_000),
        Value::Float((-2.5f32).to_bits()),
        Value::Double(6.25f64.to_bits()),
        Value::Binary(vec![0, 1, 0, 0, 255]),
        Value::String("h\u{e9}llo\0".to_string()),
    ];
    let types: Vec<DataType> = values.iter().map(|v| v.data_type()).collect();
    let schema = key_schema(&types);
    let mut row = Row::new(schema.clone());
    for (i, v) in values.iter().enumerate() {
        row.set(i, v.clone()).unwrap();
    }
    let key = encode_primary_key(&row);
    let decoded = decode_primary_key(&schema, &key).unwrap();
    assert_eq!(decoded, row);
}

#[test]
fn decode_value_reads_one_column_and_returns_the_rest() {
    let (value, rest) = decode_value_from(DataType::Int16, false, &[0x80, 0x05, 9]).unwrap();
    assert_eq!(value, Value::Int16(5));
    assert_eq!(rest, &[9u8][..]);
    let (value, rest) = decode_value_from(DataType::Int64, true, &[0x7f, 0xff, 0xff, 0xff, 0xff, 0xff, 0xff, 0xfe]).unwrap();
    assert_eq!(value, Value::Int64(-2));
    assert!(rest.is_empty());
    let (value, _) = decode_value_from(DataType::Float, true, &[0xbf, 0x80, 0, 0]).unwrap();
    assert_eq!(value, Value::Float(1.0f32.to_bits()));
    let (value, _) = decode_value_from(DataType::Double, true, &[0x40, 0x0f, 0xff, 0xff, 0xff, 0xff, 0xff, 0xff]).unwrap();
    assert_eq!(value, Value::Double((-1.0f64).to_bits()));
    let (value, _) = decode_value_from(DataType::Bool, true, &[2]).unwrap();
    assert_eq!(value, Value::Bool(true));
}

#[test]
fn encode_value_appends_to_what_is_there() {
    let mut buf = vec![1u8, 2];
    encode_value_into(&Value::Int16(0), true, &mut buf);
    assert_eq!(buf, vec![1, 2, 0x80, 0]);
}
