use kudu::backoff::{wake_time, Backoff};
use kudu::error::{Error, ErrorStatusPb, RpcError, RpcErrorCode};
use kudu::opid::OpId;
use kudu::replica::{classify, Disposition};
use kudu::row::{Row, Value};
use kudu::schema::{ColumnSchema, DataType, Schema};
use kudu::tablet::{is_ascii_bytes, ScannerId, TabletId};
use kudu::timeout::timeout_millis;

#[test]
fn opid_fields_start_absent_and_read_as_zero() {
    let id = OpId::new();
    assert!(!id.has_term());
    assert!(!id.has_index());
    assert_eq!(id.get_term(), 0);
    assert_eq!(id.get_index(), 0);
    assert!(!id.is_initialized());
    assert_eq!(id, OpId::default());
}

#[test]
fn opid_setters_and_clearers_touch_one_field() {
    let mut id = OpId::new();
    id.set_term(7);
    assert!(id.has_term());
    assert_eq!(id.get_term(), 7);
    assert!(!id.has_index());
    assert!(!id.is_initialized());
    id.set_index(-3);
    assert_eq!(id.get_index(), -3);
    assert!(id.is_initialized());
    let copy = id.clone();
    assert_eq!(copy, id);
    id.clear_term();
    assert!(!id.has_term());
    assert_eq!(id.get_term(), 0);
    assert_eq!(id.get_index(), -3);
    assert_ne!(copy, id);
    id.set_term(0);
    id.clear_index();
    assert!(id.has_term());
    assert!(!id.has_index());
    id.clear();
    assert_eq!(id, OpId::new());
}

fn rpc(code: RpcErrorCode) -> RpcError {
    RpcError { code, message: "m".to_string(), unsupported_feature_flags: vec![1, 2] }
}

#[test]
fn fatal_codes_are_the_seven_fatal_ones() {
    let fatal = [
        RpcErrorCode::FatalDeserializingRequest,
        RpcErrorCode::FatalInvalidAuthenticationToken,
        RpcErrorCode::FatalInvalidRpcHeader,
        RpcErrorCode::FatalServerShuttingDown,
        RpcErrorCode::FatalUnauthorized,
        RpcErrorCode::FatalUnknown,
        RpcErrorCode::FatalVersionMismatch,
    ];
    let other = [
        RpcErrorCode::ErrorApplication,
        RpcErrorCode::ErrorInvalidRequest,
        RpcErrorCode::ErrorNoSuchMethod,
        RpcErrorCode::ErrorNoSuchService,
        RpcErrorCode::ErrorRequestStale,
        RpcErrorCode::ErrorServerTooBusy,
        RpcErrorCode::ErrorUnavailable,
    ];
    for code in fatal {
        assert!(rpc(code).is_fatal());
        assert!(!rpc(code).is_retriable());
        assert!(Error::Rpc(rpc(code)).is_fatal());
    }
    for code in other {
        assert!(!rpc(code).is_fatal());
        assert!(!Error::Rpc(rpc(code)).is_fatal());
        assert_eq!(rpc(code).is_retriable(), code == RpcErrorCode::ErrorServerTooBusy);
    }
}

#[test]
fn error_kinds_and_the_connection() {
    assert!(Error::Io(std::io::Error::from(std::io::ErrorKind::BrokenPipe)).is_fatal());
    assert!(Error::Serialization("x".to_string()).is_fatal());
    assert!(Error::Negotiation("x".to_string()).is_fatal());
    assert!(!Error::TimedOut.is_fatal());
    assert!(!Error::InvalidArgument("x".to_string()).is_fatal());
}

#[test]
fn descriptions() {
    assert_eq!(rpc(RpcErrorCode::ErrorApplication).description(), "application error");
    assert_eq!(rpc(RpcErrorCode::ErrorServerTooBusy).description(), "server too busy");
    assert_eq!(rpc(RpcErrorCode::FatalInvalidRpcHeader).description(), "invalid RPC header");
    assert_eq!(rpc(RpcErrorCode::FatalUnknown).description(), "unknown error");
    assert_eq!(Error::Rpc(rpc(RpcErrorCode::ErrorUnavailable)).description(), "unavailable");
    assert_eq!(Error::TimedOut.description(), "RPC timed out");
    assert_eq!(Error::Serialization("bad bytes".to_string()).description(), "bad bytes");
    assert_eq!(Error::Negotiation("no".to_string()).description(), "no");
    assert_eq!(Error::InvalidArgument("what".to_string()).description(), "what");
    let io = Error::Io(std::io::Error::new(std::io::ErrorKind::Other, "pipe burst"));
    assert_eq!(io.description(), "pipe burst");
}

#[test]
fn a_copy_of_an_error_keeps_its_kind_and_message() {
    let error = Error::Rpc(rpc(RpcErrorCode::ErrorRequestStale));
    match error.clone() {
        Error::Rpc(copy) => {
            assert_eq!(copy.code, RpcErrorCode::ErrorRequestStale);
            assert_eq!(copy.message, "m");
            assert_eq!(copy.unsupported_feature_flags, vec![1, 2]);
        }
        _ => panic!("the copy is a server error"),
    }
    assert!(matches!(Error::Serialization("s".to_string()).clone(), Error::Serialization(m) if m == "s"));
    assert!(matches!(Error::TimedOut.clone(), Error::TimedOut));
    match Error::Io(std::io::Error::from_raw_os_error(2)).clone() {
        Error::Io(copy) => assert_eq!(copy.raw_os_error(), Some(2)),
        _ => panic!("the copy is an I/O error"),
    }
    match Error::Io(std::io::Error::from(std::io::ErrorKind::TimedOut)).clone() {
        Error::Io(copy) => assert_eq!(copy.kind(), std::io::ErrorKind::TimedOut),
        _ => panic!("the copy is an I/O error"),
    }
}

#[test]
fn conversions_into_errors() {
    let status = ErrorStatusPb {
        code: RpcErrorCode::ErrorInvalidRequest,
        message: "bad".to_string(),
        unsupported_feature_flags: vec![9],
    };
    let error = RpcError::from(status);
    assert_eq!(error.code, RpcErrorCode::ErrorInvalidRequest);
    assert_eq!(error.message, "bad");
    assert_eq!(error.unsupported_feature_flags, vec![9]);
    assert!(matches!(Error::from(error), Error::Rpc(_)));
    assert!(matches!(
        Error::from(std::io::Error::from(std::io::ErrorKind::NotFound)),
        Error::Io(_)
    ));
}

#[test]
fn a_malformed_message_becomes_a_serialization_error() {
    let failure = <u32 as prost::Message>::decode(&[0x08u8, 0x80][..]).unwrap_err();
    let text = failure.to_string();
    match Error::from_decode_error(failure) {
        Error::Serialization(message) => assert_eq!(message, text),
        _ => panic!("a decode error is a serialization error"),
    }
}

#[test]
fn dispositions_follow_the_taxonomy() {
    assert_eq!(classify(&Error::Rpc(rpc(RpcErrorCode::ErrorServerTooBusy))), Disposition::Retry);
    assert_eq!(classify(&Error::Rpc(rpc(RpcErrorCode::FatalUnauthorized))), Disposition::Fatal);
    assert_eq!(classify(&Error::Rpc(rpc(RpcErrorCode::ErrorApplication))), Disposition::Fail);
    assert_eq!(
        classify(&Error::Io(std::io::Error::from(std::io::ErrorKind::ConnectionReset))),
        Disposition::Retry
    );
    assert_eq!(classify(&Error::Serialization("x".to_string())), Disposition::Fail);
    assert_eq!(classify(&Error::Negotiation("x".to_string())), Disposition::Fatal);
    assert_eq!(classify(&Error::TimedOut), Disposition::TimedOut);
    assert_eq!(classify(&Error::InvalidArgument("x".to_string())), Disposition::Fail);
}

#[test]
fn backoff_doubles_up_to_the_cap() {
    let mut backoff = Backoff::default();
    let delays: Vec<u64> = (0..12).map(|_| backoff.next_delay(1000)).collect();
    assert_eq!(delays, vec![10, 20, 40, 80, 160, 320, 640, 1280, 2560, 5000, 5000, 5000]);
    backoff.reset();
    assert_eq!(backoff.next_delay(1000), 10);
}

#[test]
fn backoff_applies_jitter_within_half_and_one_and_a_half() {
    let mut backoff = Backoff::new(100, 1000);
    assert_eq!(backoff.next_delay(500), 50);
    assert_eq!(backoff.next_delay(1500), 300);
    assert_eq!(backoff.next_delay(0), 200);
    assert_eq!(backoff.next_delay(9999), 1200);
    assert_eq!(backoff.next_delay(1234), 1234);
    let mut wide = Backoff::new(u32::MAX, u32::MAX);
    assert_eq!(wide.next_delay(1500), u32::MAX as u64 * 1500 / 1000);
    let mut zero = Backoff::new(0, 50);
    assert_eq!(zero.next_delay(1000), 0);
    assert_eq!(zero.next_delay(1000), 0);
}

#[test]
fn a_wake_past_the_deadline_times_out() {
    assert_eq!(wake_time(100, 50, 150).ok(), Some(150));
    assert!(matches!(wake_time(100, 51, 150), Err(Error::TimedOut)));
    assert!(matches!(wake_time(u64::MAX, 1, u64::MAX), Err(Error::TimedOut)));
    assert_eq!(wake_time(0, 0, 0).ok(), Some(0));
}

#[test]
fn identifiers_are_ascii() {
    assert!(is_ascii_bytes(b"abc-123"));
    assert!(!is_ascii_bytes(&[b'a', 0x80]));
    let id = TabletId::parse_bytes(b"4f1c").unwrap();
    assert_eq!(id.to_bytes(), b"4f1c".to_vec());
    assert_eq!(id.clone(), id);
    assert!(matches!(TabletId::parse_bytes(&[0xc3, 0xa9]), Err(Error::Serialization(_))));
    let scanner = ScannerId::parse_bytes(b"s-1").unwrap();
    assert_eq!(scanner.to_bytes(), b"s-1".to_vec());
    assert!(matches!(ScannerId::parse_bytes(&[200]), Err(Error::Serialization(_))));
    assert_eq!(TabletId::parse_bytes(b"").unwrap().to_bytes(), Vec::<u8>::new());
}

#[test]
fn schema_layout() {
    let schema = Schema::new(
        vec![
            ColumnSchema::new("a", DataType::Int32, false),
            ColumnSchema::new("b", DataType::String, true),
            ColumnSchema::new("a", DataType::Bool, false),
        ],
        1,
    )
    .unwrap();
    assert_eq!(schema.num_columns(), 3);
    assert_eq!(schema.num_primary_key_columns(), 1);
    assert_eq!(schema.column(1).name(), "b");
    assert_eq!(schema.column(1).data_type(), DataType::String);
    assert!(schema.column(1).is_nullable());
    assert!(!schema.column(0).is_nullable());
    assert_eq!(schema.column_index("a"), Some(0));
    assert_eq!(schema.column_index("b"), Some(1));
    assert_eq!(schema.column_index("c"), None);
    assert!(schema.check_index(2).is_ok());
    assert!(matches!(schema.check_index(3), Err(Error::InvalidArgument(_))));
    assert_eq!(schema.row_len(), Some(21));
    assert_eq!(schema.column_offset(0), Some(0));
    assert_eq!(schema.column_offset(1), Some(4));
    assert_eq!(schema.column_offset(2), Some(20));
    assert_eq!(schema.column_offset(3), Some(21));
    assert!(schema.has_nullable_columns());
    assert_eq!(schema.bitmap_len(), 1);
    assert_eq!(schema.wire_row_len(), Some(22));
    assert_eq!(schema.clone(), schema);
    assert!(matches!(Schema::new(Vec::new(), 1), Err(Error::InvalidArgument(_))));
    let empty = Schema::without_key(Vec::new());
    assert_eq!(empty.wire_row_len(), Some(0));
    assert_eq!(empty.bitmap_len(), 0);
    assert!(!empty.has_nullable_columns());
    assert_eq!(DataType::Binary.size(), 16);
    assert!(DataType::String.is_var_len());
    assert!(!DataType::Timestamp.is_var_len());
}

#[test]
fn rows_take_values_of_the_right_type_only() {
    let schema = Schema::new(
        vec![ColumnSchema::new("a", DataType::Int32, false), ColumnSchema::new("b", DataType::String, true)],
        1,
    )
    .unwrap();
    let mut row = Row::new(schema);
    assert_eq!(row.get(0), None);
    assert!(row.set(0, Value::Int32(4)).is_ok());
    assert_eq!(row.get(0), Some(&Value::Int32(4)));
    assert!(matches!(row.set(0, Value::Int64(4)), Err(Error::InvalidArgument(_))));
    assert!(matches!(row.set(2, Value::Int32(4)), Err(Error::InvalidArgument(_))));
    assert_eq!(row.get(0), Some(&Value::Int32(4)));
    assert_eq!(row.get(1), None);
    assert_eq!(row.get(2), None);
    assert!(row.set(1, Value::String("x".to_string())).is_ok());
    assert_eq!(row.get(1).unwrap().data_type(), DataType::String);
    assert_eq!(Value::Binary(vec![1]).clone(), Value::Binary(vec![1]));
}

#[test]
fn a_refused_blocking_section_becomes_an_io_error() {
    let refused = tokio_threadpool::BlockingError::new();
    let text = refused.to_string();
    match Error::from_blocking_error(refused) {
        Error::Io(error) => {
            assert_eq!(error.kind(), std::io::ErrorKind::Other);
            assert_eq!(error.to_string(), text);
        }
        _ => panic!("a refused blocking section is an I/O error"),
    }
}

#[test]
fn timeouts_are_whole_milliseconds() {
    assert_eq!(timeout_millis(0, 0), Some(0));
    assert_eq!(timeout_millis(2, 500_000_000), Some(2_500));
    assert_eq!(timeout_millis(1, 999_999), Some(1_000));
    assert_eq!(timeout_millis(0, 999_999_999), Some(999));
    assert_eq!(timeout_millis(9_223_372_036_854_775, 807_000_000), Some(i64::MAX));
    assert_eq!(timeout_millis(9_223_372_036_854_775, 808_000_000), None);
    assert_eq!(timeout_millis(u64::MAX, 0), None);
}
