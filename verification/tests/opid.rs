use kudu::error::Error;
use kudu::opid::OpId;

fn written(id: &OpId) -> Vec<u8> {
    let mut out = Vec::new();
    id.write_to(&mut out);
    out
}

/// What the protocol runtime writes for the two fields.
fn runtime_bytes(term: Option<i64>, index: Option<i64>) -> Vec<u8> {
    let mut bytes = Vec::new();
    {
        let mut os = protobuf::CodedOutputStream::vec(&mut bytes);
        if let Some(v) = term {
            os.write_int64(1, v).unwrap();
        }
        if let Some(v) = index {
            os.write_int64(2, v).unwrap();
        }
        os.flush().unwrap();
    }
    bytes
}

fn opid(term: Option<i64>, index: Option<i64>) -> OpId {
    let mut id = OpId::new();
    if let Some(v) = term {
        id.set_term(v);
    }
    if let Some(v) = index {
        id.set_index(v);
    }
    id
}

#[test]
fn fields_are_written_as_tag_and_varint() {
    assert_eq!(written(&opid(Some(1), Some(2))), vec![0x08, 0x01, 0x10, 0x02]);
    assert_eq!(written(&opid(None, Some(300))), vec![0x10, 0xac, 0x02]);
    assert_eq!(written(&opid(Some(0), None)), vec![0x08, 0x00]);
    assert_eq!(written(&OpId::new()), Vec::<u8>::new());
    assert_eq!(
        written(&opid(Some(-1), None)),
        vec![0x08, 0xff, 0xff, 0xff, 0xff, 0xff, 0xff, 0xff, 0xff, 0xff, 0x01]
    );
}

#[test]
fn what_is_written_is_what_the_runtime_writes() {
    let values = [0i64, 1, 127, 128, 300, 16_383, 16_384, i64::MAX, -1, -2, i64::MIN, 1 << 35];
    for &t in &values {
        for &i in &values {
            for (term, index) in [(Some(t), Some(i)), (Some(t), None), (None, Some(i))] {
                let id = opid(term, index);
                let bytes = written(&id);
                assert_eq!(bytes, runtime_bytes(term, index));
                assert_eq!(id.compute_size(), bytes.len() as u64);
            }
        }
    }
}

#[test]
fn the_size_is_the_number_of_bytes_written() {
    assert_eq!(OpId::new().compute_size(), 0);
    assert_eq!(opid(Some(1), Some(2)).compute_size(), 4);
    assert_eq!(opid(Some(-1), Some(i64::MIN)).compute_size(), 22);
    let mut id = opid(Some(5), None);
    id.merge_from(&[0x18, 0x07, 0x22, 0x02, b'h', b'i']).unwrap();
    assert_eq!(id.compute_size(), 2 + 6);
}

#[test]
fn what_is_written_reads_back() {
    let values = [0i64, 1, -1, 150, i64::MAX, i64::MIN, 1 << 40];
    for &t in &values {
        for &i in &values {
            let id = opid(Some(t), Some(i));
            let back = OpId::parse_from_bytes(&written(&id)).unwrap();
            assert_eq!(back, id);
            assert_eq!(back.get_term(), t);
            assert_eq!(back.get_index(), i);
        }
    }
    let only_index = opid(None, Some(9));
    let back = OpId::parse_from_bytes(&written(&only_index)).unwrap();
    assert!(!back.has_term());
    assert_eq!(back.get_index(), 9);
}

#[test]
fn a_later_field_replaces_an_earlier_one() {
    let mut id = opid(Some(1), Some(2));
    id.merge_from(&[0x08, 0x05]).unwrap();
    assert_eq!(id.get_term(), 5);
    assert_eq!(id.get_index(), 2);
    id.merge_from(&[0x10, 0x07, 0x10, 0x08]).unwrap();
    assert_eq!(id.get_index(), 8);
    id.merge_from(&[]).unwrap();
    assert_eq!(id, opid(Some(5), Some(8)));
}

#[test]
fn unknown_fields_are_kept_as_they_came() {
    let bytes = [
        0x18, 0x96, 0x01, // field 3, a variable-length number
        0x08, 0x01, // the term
        0x22, 0x03, b'a', b'b', b'c', // field 4, three bytes
        0x29, 1, 2, 3, 4, 5, 6, 7, 8, // field 5, eight bytes
        0x10, 0x02, // the index
        0x35, 9, 9, 9, 9, // field 6, four bytes
    ];
    let id = OpId::parse_from_bytes(&bytes).unwrap();
    assert_eq!(id.get_term(), 1);
    assert_eq!(id.get_index(), 2);
    let unknown: Vec<u8> = vec![
        0x18, 0x96, 0x01, 0x22, 0x03, b'a', b'b', b'c', 0x29, 1, 2, 3, 4, 5, 6, 7, 8, 0x35, 9, 9,
        9, 9,
    ];
    assert_eq!(id.get_unknown_fields(), &unknown[..]);
    let mut expected = vec![0x08, 0x01, 0x10, 0x02];
    expected.extend_from_slice(&unknown);
    assert_eq!(written(&id), expected);
    assert_eq!(OpId::parse_from_bytes(&expected).unwrap(), id);
    let mut cleared = id.clone();
    cleared.clear();
    assert_eq!(cleared, OpId::new());
    assert_ne!(id, opid(Some(1), Some(2)));
}

#[test]
fn the_runtime_reads_what_is_written() {
    let id = opid(Some(-77), Some(1 << 50));
    let bytes = written(&id);
    let mut is = protobuf::CodedInputStream::from_bytes(&bytes);
    assert_eq!(is.read_raw_tag_or_eof().unwrap(), Some(0x08));
    assert_eq!(is.read_int64().unwrap(), -77);
    assert_eq!(is.read_raw_tag_or_eof().unwrap(), Some(0x10));
    assert_eq!(is.read_int64().unwrap(), 1 << 50);
    assert_eq!(is.read_raw_tag_or_eof().unwrap(), None);
}

fn is_serialization(result: Result<OpId, Error>) -> bool {
    matches!(result, Err(Error::Serialization(_)))
}

#[test]
fn bytes_that_are_no_fields_are_rejected() {
    assert!(is_serialization(OpId::parse_from_bytes(&[0x08])));
    assert!(is_serialization(OpId::parse_from_bytes(&[0x08, 0x80])));
    assert!(is_serialization(OpId::parse_from_bytes(&[0x80])));
    assert!(is_serialization(OpId::parse_from_bytes(&[0x00, 0x01])));
    assert!(is_serialization(OpId::parse_from_bytes(&[0x09, 1, 2, 3, 4, 5, 6, 7, 8])));
    assert!(is_serialization(OpId::parse_from_bytes(&[0x12, 0x01, 0x00])));
    assert!(is_serialization(OpId::parse_from_bytes(&[0x22, 0x05, 1, 2])));
    assert!(is_serialization(OpId::parse_from_bytes(&[0x29, 1, 2, 3])));
    assert!(is_serialization(OpId::parse_from_bytes(&[0x35, 1, 2, 3])));
    assert!(is_serialization(OpId::parse_from_bytes(&[0x1b])));
    assert!(is_serialization(OpId::parse_from_bytes(&[0x1c])));
    // Eleven bytes are one too many for a number of 64 bits.
    assert!(is_serialization(OpId::parse_from_bytes(&[
        0x08, 0xff, 0xff, 0xff, 0xff, 0xff, 0xff, 0xff, 0xff, 0xff, 0x81, 0x00
    ])));
    // Ten bytes whose value does not fit 64 bits.
    assert!(is_serialization(OpId::parse_from_bytes(&[
        0x08, 0xff, 0xff, 0xff, 0xff, 0xff, 0xff, 0xff, 0xff, 0xff, 0x02
    ])));
    // A tag that does not fit 32 bits.
    assert!(is_serialization(OpId::parse_from_bytes(&[0x88, 0x80, 0x80, 0x80, 0x10, 0x00])));
}

#[test]
fn a_failed_merge_changes_nothing() {
    let mut id = opid(Some(4), None);
    assert!(id.merge_from(&[0x10, 0x09, 0x08]).is_err());
    assert_eq!(id, opid(Some(4), None));
}

#[test]
fn numbers_may_be_padded() {
    let id = OpId::parse_from_bytes(&[0x08, 0x81, 0x80, 0x00]).unwrap();
    assert_eq!(id.get_term(), 1);
    assert_eq!(written(&id), vec![0x08, 0x01]);
}
