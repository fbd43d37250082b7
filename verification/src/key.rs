//! The primary-key codec: a composite key as one byte string whose
//! dictionary order is the order of the key tuples. Also the 64-bit Murmur2
//! hash that places a key in a hash partition.

use crate::endian::{
    append, be_array_u16, be_array_u32, be_array_u64, be_bytes, be_value, le_value, read_be_u16,
    read_be_u32, read_be_u64, read_le_u64,
};
use crate::error::Error;
use crate::row::{Row, RowView, Value, ValueView};
use crate::schema::{DataType, Schema};
use vstd::prelude::*;
use vstd::slice::{slice_subrange, slice_to_vec};
use vstd::utf8::{decode_utf8, encode_utf8, valid_utf8};

verus! {

/// The multiplier of the hash.
pub open spec fn murmur_m() -> u64 {
    0xc6a4a7935bd1e995
}

/// How the hash scrambles one eight-byte block before folding it in.
pub open spec fn murmur_mix(k: u64) -> u64 {
    let k1 = k.wrapping_mul(murmur_m());
    let k2 = k1 ^ (k1 >> 47);
    k2.wrapping_mul(murmur_m())
}

/// The hash state after the first `blocks` eight-byte blocks of `data`, each
/// read least significant byte first.
pub open spec fn murmur_blocks(h: u64, data: Seq<u8>, blocks: nat) -> u64
    decreases blocks,
{
    if blocks == 0 {
        h
    } else {
        let before = murmur_blocks(h, data, (blocks - 1) as nat);
        let k = le_value(data.subrange(8 * (blocks - 1), 8 * blocks as int)) as u64;
        (before ^ murmur_mix(k)).wrapping_mul(murmur_m())
    }
}

/// The hash state after the bytes that follow the last whole block, read as
/// one number, least significant byte first. Nothing happens where no byte
/// is left.
pub open spec fn murmur_tail(h: u64, tail: Seq<u8>) -> u64 {
    if tail.len() == 0 {
        h
    } else {
        (h ^ (le_value(tail) as u64)).wrapping_mul(murmur_m())
    }
}

/// The last scrambling of the hash state.
pub open spec fn murmur_finish(h: u64) -> u64 {
    let h1 = h ^ (h >> 47);
    let h2 = h1.wrapping_mul(murmur_m());
    h2 ^ (h2 >> 47)
}

/// The 64-bit Murmur2 hash of `data` under `seed`.
pub open spec fn murmur2_64_of(data: Seq<u8>, seed: u64) -> u64 {
    let h0 = seed ^ (data.len() as u64).wrapping_mul(murmur_m());
    let blocks = data.len() / 8;
    let h1 = murmur_blocks(h0, data, blocks);
    let h2 = murmur_tail(h1, data.subrange(8 * blocks as int, data.len() as int));
    murmur_finish(h2)
}

/// The number that the bytes `data[from..]` denote, least significant first.
fn le_tail(data: &[u8], from: usize) -> (t: u64)
    requires
        from <= data@.len(),
        data@.len() - from < 8,
    ensures
        t == le_value(data@.subrange(from as int, data@.len() as int)),
{
    let mut t: u64 = 0;
    let mut j: usize = data.len();
    proof {
        assert(data@.subrange(j as int, data@.len() as int) =~= Seq::<u8>::empty());
    }
    while j > from
        invariant
            from <= j <= data@.len(),
            data@.len() - from < 8,
            t == le_value(data@.subrange(j as int, data@.len() as int)),
        decreases j,
    {
        proof {
            let longer = data@.subrange(j - 1, data@.len() as int);
            let shorter = data@.subrange(j as int, data@.len() as int);
            assert(longer.drop_first() =~= shorter);
            assert(longer[0] == data@[j - 1]);
            crate::endian::lemma_le_value_bound(shorter);
            crate::endian::lemma_radix_pow_values();
            reveal_with_fuel(crate::endian::radix_pow, 9);
            assert(crate::endian::radix_pow(shorter.len()) <= crate::endian::radix_pow(6)) by {
                crate::endian::lemma_radix_pow_monotone(shorter.len(), 6);
            }
        }
        j = j - 1;
        t = t * 256 + data[j] as u64;
    }
    t
}

/// The 64-bit Murmur2 hash of `data` under `seed`.
pub fn murmur2_64(data: &[u8], seed: u64) -> (hash: u64)
    ensures
        hash == murmur2_64_of(data@, seed),
{
    let m: u64 = 0xc6a4a7935bd1e995;
    let len = data.len();
    let blocks = len / 8;
    let mut h: u64 = seed ^ (len as u64).wrapping_mul(m);
    let mut i: usize = 0;
    while i < blocks
        invariant
            i <= blocks,
            blocks == data@.len() / 8,
            len == data@.len(),
            m == murmur_m(),
            h == murmur_blocks(seed ^ (len as u64).wrapping_mul(murmur_m()), data@, i as nat),
        decreases blocks - i,
    {
        let block = slice_subrange(data, 8 * i, 8 * i + 8);
        proof {
            assert(block@.subrange(0, 8) =~= data@.subrange(8 * i, 8 * (i + 1)));
        }
        let mut k = read_le_u64(block);
        k = k.wrapping_mul(m);
        k = k ^ (k >> 47);
        k = k.wrapping_mul(m);
        h = h ^ k;
        h = h.wrapping_mul(m);
        i = i + 1;
    }
    if 8 * blocks < len {
        let t = le_tail(data, 8 * blocks);
        h = h ^ t;
        h = h.wrapping_mul(m);
    }
    h = h ^ (h >> 47);
    h = h.wrapping_mul(m);
    h = h ^ (h >> 47);
    h
}

/// The image of a signed integer of `width` bytes among the unsigned ones:
/// the least integer maps to zero, so that order is kept.
pub open spec fn biased(v: int, width: nat) -> nat {
    (v + crate::endian::radix_pow(width) / 2) as nat
}

/// The image of the bits of an IEEE-754 number of `width` bytes: with the
/// sign bit clear only that bit is flipped, with the sign bit set every bit
/// is.
pub open spec fn float_image(bits: nat, width: nat) -> nat {
    let half = crate::endian::radix_pow(width) / 2;
    if bits < half {
        bits + half
    } else {
        (2 * half - 1 - bits) as nat
    }
}

/// What one byte of a value becomes in a column that is not the last.
pub open spec fn escape_byte(b: u8) -> Seq<u8> {
    if b == 0 {
        seq![0u8, 1u8]
    } else {
        seq![b]
    }
}

/// A value with each zero byte replaced by a zero and a one.
pub open spec fn escape_body(value: Seq<u8>) -> Seq<u8>
    decreases value.len(),
{
    if value.len() == 0 {
        Seq::empty()
    } else {
        escape_body(value.drop_last()) + escape_byte(value.last())
    }
}

/// A value as a column that is not the last: escaped, then closed by two
/// zero bytes.
pub open spec fn escape(value: Seq<u8>) -> Seq<u8> {
    escape_body(value) + seq![0u8, 0u8]
}

/// The bytes of a binary or string column: raw in the last column, escaped
/// and terminated in any other.
pub open spec fn encode_bytes(value: Seq<u8>, is_last: bool) -> Seq<u8> {
    if is_last {
        value
    } else {
        escape(value)
    }
}

/// The encoding of one key column.
pub open spec fn encode_value(v: ValueView, is_last: bool) -> Seq<u8> {
    match v {
        ValueView::Bool(b) => seq![if b { 1u8 } else { 0u8 }],
        ValueView::Int8(x) => be_bytes(biased(x as int, 1), 1),
        ValueView::Int16(x) => be_bytes(biased(x as int, 2), 2),
        ValueView::Int32(x) => be_bytes(biased(x as int, 4), 4),
        ValueView::Int64(x) => be_bytes(biased(x as int, 8), 8),
        ValueView::Timestamp(x) => be_bytes(biased(x as int, 8), 8),
        ValueView::Float(bits) => be_bytes(float_image(bits as nat, 4), 4),
        ValueView::Double(bits) => be_bytes(float_image(bits as nat, 8), 8),
        ValueView::Binary(bytes) => encode_bytes(bytes, is_last),
        ValueView::String(chars) => encode_bytes(encode_utf8(chars), is_last),
    }
}

/// The encoding of the key columns from `from` on, one after the other.
pub open spec fn encode_columns(key: Seq<ValueView>, from: int) -> Seq<u8>
    decreases key.len() - from,
{
    if from < 0 || from >= key.len() {
        Seq::empty()
    } else {
        encode_value(key[from], from + 1 == key.len()) + encode_columns(key, from + 1)
    }
}

/// The encoding of a whole key.
pub open spec fn encode_key(key: Seq<ValueView>) -> Seq<u8> {
    encode_columns(key, 0)
}

/// Appends a binary value to `buf` as a key column: raw if the column is the
/// last, else escaped and closed by two zero bytes.
pub fn encode_binary(value: &[u8], is_last: bool, buf: &mut Vec<u8>)
    ensures
        final(buf)@ == old(buf)@ + encode_bytes(value@, is_last),
{
    if is_last {
        append(buf, value);
    } else {
        let mut i: usize = 0;
        proof {
            assert(value@.take(0) =~= Seq::<u8>::empty());
            assert(buf@ =~= old(buf)@ + escape_body(value@.take(0)));
        }
        while i < value.len()
            invariant
                i <= value@.len(),
                buf@ == old(buf)@ + escape_body(value@.take(i as int)),
            decreases value@.len() - i,
        {
            let b = value[i];
            let ghost before = buf@;
            if b == 0 {
                buf.push(0);
                buf.push(1);
            } else {
                buf.push(b);
            }
            proof {
                assert(value@.take(i + 1).drop_last() =~= value@.take(i as int));
                assert(value@.take(i + 1).last() == b);
                assert(buf@ =~= before + escape_byte(b));
                assert(buf@ =~= old(buf)@ + escape_body(value@.take(i + 1)));
            }
            i = i + 1;
        }
        buf.push(0);
        buf.push(0);
        proof {
            assert(value@.take(i as int) =~= value@);
            assert(buf@ =~= old(buf)@ + escape(value@));
        }
    }
}

/// The unsigned image of a 16-bit integer.
fn bias_i16(v: i16) -> (u: u16)
    ensures
        u == biased(v as int, 2),
{
    proof {
        crate::endian::lemma_radix_pow_values();
    }
    (v as i32 + 0x8000) as u16
}

/// The unsigned image of a 32-bit integer.
fn bias_i32(v: i32) -> (u: u32)
    ensures
        u == biased(v as int, 4),
{
    proof {
        crate::endian::lemma_radix_pow_values();
    }
    (v as i64 + 0x8000_0000) as u32
}

/// The unsigned image of a 64-bit integer.
fn bias_i64(v: i64) -> (u: u64)
    ensures
        u == biased(v as int, 8),
{
    proof {
        crate::endian::lemma_radix_pow_values();
    }
    (v as i128 + 0x8000_0000_0000_0000) as u64
}

/// The image of the bits of a 32-bit float.
fn image_f32(bits: u32) -> (u: u32)
    ensures
        u == float_image(bits as nat, 4),
{
    proof {
        crate::endian::lemma_radix_pow_values();
    }
    if bits < 0x8000_0000 {
        bits + 0x8000_0000
    } else {
        0xffff_ffff - bits
    }
}

/// The image of the bits of a 64-bit float.
fn image_f64(bits: u64) -> (u: u64)
    ensures
        u == float_image(bits as nat, 8),
{
    proof {
        crate::endian::lemma_radix_pow_values();
    }
    if bits < 0x8000_0000_0000_0000 {
        bits + 0x8000_0000_0000_0000
    } else {
        0xffff_ffff_ffff_ffff - bits
    }
}

/// Appends the encoding of one key column to `buf`.
pub fn encode_value_into(value: &Value, is_last: bool, buf: &mut Vec<u8>)
    ensures
        final(buf)@ == old(buf)@ + encode_value(value@, is_last),
{
    match value {
        Value::Bool(b) => {
            buf.push(if *b { 1 } else { 0 });
            proof {
                assert(buf@ =~= old(buf)@ + encode_value(value@, is_last));
            }
        },
        Value::Int8(x) => {
            proof {
                crate::endian::lemma_radix_pow_values();
                reveal_with_fuel(be_bytes, 2);
            }
            let u = (*x as i16 + 128) as u8;
            buf.push(u);
            proof {
                assert(be_bytes(u as nat, 1) =~= seq![u]);
                assert(buf@ =~= old(buf)@ + encode_value(value@, is_last));
            }
        },
        Value::Int16(x) => {
            let bytes = be_array_u16(bias_i16(*x));
            append(buf, bytes.as_slice());
        },
        Value::Int32(x) => {
            let bytes = be_array_u32(bias_i32(*x));
            append(buf, bytes.as_slice());
        },
        Value::Int64(x) => {
            let bytes = be_array_u64(bias_i64(*x));
            append(buf, bytes.as_slice());
        },
        Value::Timestamp(x) => {
            let bytes = be_array_u64(bias_i64(*x));
            append(buf, bytes.as_slice());
        },
        Value::Float(bits) => {
            let bytes = be_array_u32(image_f32(*bits));
            append(buf, bytes.as_slice());
        },
        Value::Double(bits) => {
            let bytes = be_array_u64(image_f64(*bits));
            append(buf, bytes.as_slice());
        },
        Value::Binary(bytes) => {
            encode_binary(bytes.as_slice(), is_last, buf);
        },
        Value::String(text) => {
            encode_binary(text.as_str().as_bytes(), is_last, buf);
        },
    }
}

/// Appends the encoding of the row's key column `idx` to `buf`.
fn encode_column(row: &Row, idx: usize, is_last: bool, buf: &mut Vec<u8>)
    requires
        idx < row@.values.len(),
        row@.values[idx as int].is_some(),
    ensures
        final(buf)@ == old(buf)@ + encode_value(row@.values[idx as int].unwrap(), is_last),
{
    match row.get(idx) {
        Some(value) => encode_value_into(value, is_last, buf),
        None => {},
    }
}

/// The encoded primary key of a row whose key columns are all set.
pub fn encode_primary_key(row: &Row) -> (key: Vec<u8>)
    requires
        row@.well_typed(),
        row@.key_is_set(),
    ensures
        key@ == encode_key(row@.key()),
{
    let mut buf: Vec<u8> = Vec::new();
    let num_primary_key_columns = row.schema().num_primary_key_columns();
    let mut idx: usize = 0;
    proof {
        assert(buf@ + encode_columns(row@.key(), 0) =~= encode_key(row@.key()));
    }
    while idx < num_primary_key_columns
        invariant
            idx <= num_primary_key_columns,
            num_primary_key_columns == row@.schema.num_primary_key_columns,
            row@.well_typed(),
            row@.key_is_set(),
            buf@ + encode_columns(row@.key(), idx as int) == encode_key(row@.key()),
        decreases num_primary_key_columns - idx,
    {
        let ghost before = buf@;
        let is_last = idx + 1 == num_primary_key_columns;
        encode_column(row, idx, is_last, &mut buf);
        proof {
            let key = row@.key();
            assert(key[idx as int] == row@.values[idx as int].unwrap());
            assert(buf@ + encode_columns(key, idx + 1) =~= before + encode_columns(
                key,
                idx as int,
            ));
        }
        idx = idx + 1;
    }
    proof {
        assert(buf@ + encode_columns(row@.key(), idx as int) =~= buf@);
    }
    buf
}

/// The signed integer of `width` bytes whose unsigned image is `image`.
pub open spec fn unbiased(image: nat, width: nat) -> int {
    image - crate::endian::radix_pow(width) / 2
}

/// The bits of the IEEE-754 number of `width` bytes whose image is `image`.
pub open spec fn float_bits(image: nat, width: nat) -> nat {
    let half = crate::endian::radix_pow(width) / 2;
    if image >= half {
        (image - half) as nat
    } else {
        (2 * half - 1 - image) as nat
    }
}

/// Reads an escaped value off the front of `bytes`: the value, and what
/// follows its terminator. There is none where the terminator is missing or
/// a zero byte is followed by anything but a zero or a one.
pub open spec fn unescape(bytes: Seq<u8>) -> Option<(Seq<u8>, Seq<u8>)>
    decreases bytes.len(),
{
    if bytes.len() == 0 {
        None
    } else if bytes[0] != 0 {
        put_before(seq![bytes[0]], unescape(bytes.drop_first()))
    } else if bytes.len() < 2 {
        None
    } else if bytes[1] == 0 {
        Some((Seq::empty(), bytes.skip(2)))
    } else if bytes[1] == 1 {
        put_before(seq![0u8], unescape(bytes.skip(2)))
    } else {
        None
    }
}

/// A parse whose value is preceded by `prefix`.
pub open spec fn put_before(prefix: Seq<u8>, parsed: Option<(Seq<u8>, Seq<u8>)>) -> Option<
    (Seq<u8>, Seq<u8>),
> {
    match parsed {
        Some((value, rest)) => Some((prefix + value, rest)),
        None => None,
    }
}

/// Reads a binary column off the front of `bytes`: everything in the last
/// column, an escaped value in any other.
pub open spec fn decode_bytes(bytes: Seq<u8>, is_last: bool) -> Option<(Seq<u8>, Seq<u8>)> {
    if is_last {
        Some((bytes, Seq::empty()))
    } else {
        unescape(bytes)
    }
}

/// The width of an encoded key column of a fixed-width type.
pub open spec fn key_width(data_type: DataType) -> nat {
    match data_type {
        DataType::Bool => 1,
        DataType::Int8 => 1,
        DataType::Int16 => 2,
        DataType::Int32 => 4,
        DataType::Int64 => 8,
        DataType::Timestamp => 8,
        DataType::Float => 4,
        DataType::Double => 8,
        DataType::Binary => 0,
        DataType::String => 0,
    }
}

/// Reads one key column of the given type off the front of `bytes`: the
/// value, and what follows it. There is none where a fixed-width column is
/// cut short, an escaped value is malformed, or a string is not UTF-8.
pub open spec fn decode_value(data_type: DataType, is_last: bool, bytes: Seq<u8>) -> Option<
    (ValueView, Seq<u8>),
> {
    let width = key_width(data_type);
    if bytes.len() < width {
        None
    } else {
        let image = be_value(bytes.take(width as int));
        let rest = bytes.skip(width as int);
        match data_type {
            DataType::Bool => Some((ValueView::Bool(bytes[0] != 0), rest)),
            DataType::Int8 => Some((ValueView::Int8(unbiased(image, 1) as i8), rest)),
            DataType::Int16 => Some((ValueView::Int16(unbiased(image, 2) as i16), rest)),
            DataType::Int32 => Some((ValueView::Int32(unbiased(image, 4) as i32), rest)),
            DataType::Int64 => Some((ValueView::Int64(unbiased(image, 8) as i64), rest)),
            DataType::Timestamp => Some((ValueView::Timestamp(unbiased(image, 8) as i64), rest)),
            DataType::Float => Some((ValueView::Float(float_bits(image, 4) as u32), rest)),
            DataType::Double => Some((ValueView::Double(float_bits(image, 8) as u64), rest)),
            DataType::Binary => match decode_bytes(bytes, is_last) {
                Some((value, rest)) => Some((ValueView::Binary(value), rest)),
                None => None,
            },
            DataType::String => match decode_bytes(bytes, is_last) {
                Some((value, rest)) => if valid_utf8(value) {
                    Some((ValueView::String(decode_utf8(value)), rest))
                } else {
                    None
                },
                None => None,
            },
        }
    }
}

/// A parse of the later columns, preceded by the values of the earlier ones.
pub open spec fn values_before(done: Seq<ValueView>, parsed: Option<Seq<ValueView>>) -> Option<
    Seq<ValueView>,
> {
    match parsed {
        Some(values) => Some(done + values),
        None => None,
    }
}

/// Reads the key columns from `from` on off `bytes`, which they must use up.
pub open spec fn decode_columns(types: Seq<DataType>, from: int, bytes: Seq<u8>) -> Option<
    Seq<ValueView>,
>
    decreases types.len() - from,
{
    if from < 0 || from >= types.len() {
        if bytes.len() == 0 {
            Some(Seq::empty())
        } else {
            None
        }
    } else {
        match decode_value(types[from], from + 1 == types.len(), bytes) {
            Some((value, rest)) => values_before(seq![value], decode_columns(types, from + 1, rest)),
            None => None,
        }
    }
}

/// Reads a whole key of the given column types from `bytes`.
pub open spec fn decode_key(types: Seq<DataType>, bytes: Seq<u8>) -> Option<Seq<ValueView>> {
    decode_columns(types, 0, bytes)
}

/// Reads a binary value off the front of `key`: the rest of the key and the
/// value. In the last column the value is all of `key`; in any other it is
/// escaped and terminated, and a malformed one is a serialization error.
pub fn decode_binary(key: &[u8], is_last: bool) -> (parsed: Result<(&[u8], Vec<u8>), Error>)
    ensures
        match decode_bytes(key@, is_last) {
            Some((value, rest)) => parsed matches Ok((r, v)) && r@ == rest && v@ == value,
            None => parsed matches Err(error) && error is Serialization,
        },
{
    if is_last {
        let rest = slice_subrange(key, key.len(), key.len());
        proof {
            assert(rest@ =~= Seq::<u8>::empty());
        }
        return Ok((rest, slice_to_vec(key)));
    }
    let mut ret: Vec<u8> = Vec::new();
    let mut i: usize = 0;
    proof {
        assert(key@.skip(0) =~= key@);
        assert(put_before(ret@, unescape(key@)) =~= unescape(key@)) by {
            match unescape(key@) {
                Some((value, rest)) => {
                    assert(ret@ + value =~= value);
                },
                None => {},
            }
        }
    }
    loop
        invariant
            !is_last,
            i <= key@.len(),
            unescape(key@) == put_before(ret@, unescape(key@.skip(i as int))),
        decreases key@.len() - i,
    {
        let ghost here = key@.skip(i as int);
        if i >= key.len() {
            return Err(
                Error::Serialization("expected binary column separator sequence".to_owned()),
            );
        }
        let b = key[i];
        if b != 0 {
            let ghost before = ret@;
            ret.push(b);
            proof {
                assert(here.drop_first() =~= key@.skip(i + 1));
                let inner = unescape(key@.skip(i + 1));
                match inner {
                    Some((value, rest)) => {
                        assert(before + (seq![b] + value) =~= ret@ + value);
                    },
                    None => {},
                }
            }
            i = i + 1;
        } else {
            if i + 1 >= key.len() {
                return Err(
                    Error::Serialization("expected binary column separator sequence".to_owned()),
                );
            }
            let c = key[i + 1];
            if c == 0 {
                let rest = slice_subrange(key, i + 2, key.len());
                proof {
                    assert(here.skip(2) =~= rest@);
                    assert(ret@ + Seq::<u8>::empty() =~= ret@);
                }
                return Ok((rest, ret));
            } else if c == 1 {
                let ghost before = ret@;
                ret.push(0);
                proof {
                    assert(here.skip(2) =~= key@.skip(i + 2));
                    let inner = unescape(key@.skip(i + 2));
                    match inner {
                        Some((value, rest)) => {
                            assert(before + (seq![0u8] + value) =~= ret@ + value);
                        },
                        None => {},
                    }
                }
                i = i + 2;
            } else {
                return Err(Error::Serialization("unexpected binary sequence".to_owned()));
            }
        }
    }
}

/// `String::from_utf8`: the string that the bytes spell, where they are
/// valid UTF-8, and nothing where they are not.
#[verifier::external_body]
pub(crate) fn string_from_utf8(bytes: Vec<u8>) -> (text: Option<String>)
    ensures
        valid_utf8(bytes@) <==> text is Some,
        text matches Some(s) ==> s@ == decode_utf8(bytes@),
{
    String::from_utf8(bytes).ok()
}

/// The error for a key that ends inside a fixed-width column.
fn truncated() -> (error: Error)
    ensures
        error matches Error::Serialization(text) && text@
            == "key ends inside a fixed-width column"@,
{
    Error::Serialization("key ends inside a fixed-width column".to_owned())
}

/// Reads one key column of the given type off the front of `key`: the value
/// and the rest of the key, or a serialization error.
pub fn decode_value_from(data_type: DataType, is_last: bool, key: &[u8]) -> (parsed: Result<
    (Value, &[u8]),
    Error,
>)
    ensures
        match decode_value(data_type, is_last, key@) {
            Some((value, rest)) => parsed matches Ok((v, r)) && v@ == value && r@ == rest,
            None => parsed matches Err(error) && error is Serialization,
        },
{
    proof {
        crate::endian::lemma_radix_pow_values();
    }
    match data_type {
        DataType::Bool => {
            if key.len() < 1 {
                return Err(truncated());
            }
            Ok((Value::Bool(key[0] != 0), slice_subrange(key, 1, key.len())))
        },
        DataType::Int8 => {
            if key.len() < 1 {
                return Err(truncated());
            }
            proof {
                let one = key@.take(1);
                assert(one.drop_last() =~= Seq::<u8>::empty());
                assert(be_value(one.drop_last()) == 0);
                assert(be_value(one) == key@[0] as nat);
            }
            Ok((Value::Int8((key[0] as i16 - 128) as i8), slice_subrange(key, 1, key.len())))
        },
        DataType::Int16 => {
            if key.len() < 2 {
                return Err(truncated());
            }
            proof {
                crate::endian::lemma_be_value_bound(key@.take(2));
            }
            let image = read_be_u16(key);
            Ok((Value::Int16((image as i32 - 0x8000) as i16), slice_subrange(key, 2, key.len())))
        },
        DataType::Int32 => {
            if key.len() < 4 {
                return Err(truncated());
            }
            let image = read_be_u32(key);
            Ok(
                (
                    Value::Int32((image as i64 - 0x8000_0000) as i32),
                    slice_subrange(key, 4, key.len()),
                ),
            )
        },
        DataType::Int64 => {
            if key.len() < 8 {
                return Err(truncated());
            }
            let image = read_be_u64(key);
            Ok(
                (
                    Value::Int64((image as i128 - 0x8000_0000_0000_0000) as i64),
                    slice_subrange(key, 8, key.len()),
                ),
            )
        },
        DataType::Timestamp => {
            if key.len() < 8 {
                return Err(truncated());
            }
            let image = read_be_u64(key);
            Ok(
                (
                    Value::Timestamp((image as i128 - 0x8000_0000_0000_0000) as i64),
                    slice_subrange(key, 8, key.len()),
                ),
            )
        },
        DataType::Float => {
            if key.len() < 4 {
                return Err(truncated());
            }
            let image = read_be_u32(key);
            let bits: u32 = if image >= 0x8000_0000 {
                image - 0x8000_0000
            } else {
                0xffff_ffff - image
            };
            Ok((Value::Float(bits), slice_subrange(key, 4, key.len())))
        },
        DataType::Double => {
            if key.len() < 8 {
                return Err(truncated());
            }
            let image = read_be_u64(key);
            let bits: u64 = if image >= 0x8000_0000_0000_0000 {
                image - 0x8000_0000_0000_0000
            } else {
                0xffff_ffff_ffff_ffff - image
            };
            Ok((Value::Double(bits), slice_subrange(key, 8, key.len())))
        },
        DataType::Binary => {
            match decode_binary(key, is_last) {
                Ok((remaining, value)) => Ok((Value::Binary(value), remaining)),
                Err(error) => Err(error),
            }
        },
        DataType::String => {
            match decode_binary(key, is_last) {
                Ok((remaining, value)) => {
                    match string_from_utf8(value) {
                        Some(text) => Ok((Value::String(text), remaining)),
                        None => Err(Error::Serialization("string column is not UTF-8".to_owned())),
                    }
                },
                Err(error) => Err(error),
            }
        },
    }
}

/// Reads key column `idx` of the row's schema off the front of `key` and
/// sets it in the row; gives back the rest of the key.
fn decode_column<'a>(row: &mut Row, idx: usize, is_last: bool, key: &'a [u8]) -> (parsed: Result<
    &'a [u8],
    Error,
>)
    requires
        old(row)@.well_typed(),
        idx < old(row)@.schema.columns.len(),
    ensures
        final(row)@.well_typed(),
        final(row)@.schema == old(row)@.schema,
        match decode_value(old(row)@.schema.columns[idx as int].data_type, is_last, key@) {
            Some((value, rest)) => parsed matches Ok(r) && r@ == rest && final(row)@.values == old(
                row,
            )@.values.update(idx as int, Some(value)),
            None => parsed matches Err(error) && error is Serialization,
        },
{
    let data_type = row.schema().column(idx).data_type();
    match decode_value_from(data_type, is_last, key) {
        Ok((value, remaining)) => {
            match row.set(idx, value) {
                Ok(()) => Ok(remaining),
                Err(error) => Err(error),
            }
        },
        Err(error) => Err(error),
    }
}

/// What a decoded row holds: the key's values in the key columns, nothing
/// in the others.
pub open spec fn holds_key(row: RowView, key: Seq<ValueView>) -> bool {
    &&& row.well_typed()
    &&& row.key_is_set()
    &&& row.key() == key
    &&& forall|i: int|
        row.schema.num_primary_key_columns <= i < row.values.len() ==> (
        #[trigger] row.values[i]) is None
}

/// Decodes an encoded primary key into a row of the schema. Bytes left over
/// after the last key column, a fixed-width column cut short, a malformed
/// escape and a string that is not UTF-8 are serialization errors.
pub fn decode_primary_key(schema: &Schema, key: &[u8]) -> (decoded: Result<Row, Error>)
    ensures
        match decode_key(schema@.key_types(), key@) {
            Some(values) => decoded matches Ok(row) && row@.schema == schema@ && holds_key(
                row@,
                values,
            ),
            None => decoded matches Err(error) && error is Serialization,
        },
{
    let mut row = Row::new(schema.duplicate());
    let num_primary_key_columns = schema.num_primary_key_columns();
    let ghost types = schema@.key_types();
    let mut rest: &[u8] = key;
    let mut idx: usize = 0;
    proof {
        let done = Seq::new(0, |j: int| row@.values[j].unwrap());
        match decode_columns(types, 0, key@) {
            Some(values) => {
                assert(done + values =~= values);
            },
            None => {},
        }
    }
    while idx < num_primary_key_columns
        invariant
            idx <= num_primary_key_columns,
            num_primary_key_columns == schema@.num_primary_key_columns,
            num_primary_key_columns <= schema@.columns.len(),
            types == schema@.key_types(),
            row@.schema == schema@,
            row@.well_typed(),
            forall|j: int| 0 <= j < idx ==> (#[trigger] row@.values[j]).is_some(),
            forall|j: int| idx <= j < row@.values.len() ==> (#[trigger] row@.values[j]) is None,
            decode_key(types, key@) == values_before(
                Seq::new(idx as nat, |j: int| row@.values[j].unwrap()),
                decode_columns(types, idx as int, rest@),
            ),
        decreases num_primary_key_columns - idx,
    {
        let ghost before = row@;
        let ghost done = Seq::new(idx as nat, |j: int| before.values[j].unwrap());
        let is_last = idx + 1 == num_primary_key_columns;
        match decode_column(&mut row, idx, is_last, rest) {
            Ok(remaining) => {
                proof {
                    let parsed = decode_value(types[idx as int], is_last, rest@);
                    let value = parsed.unwrap().0;
                    let done_next = Seq::new((idx + 1) as nat, |j: int| row@.values[j].unwrap());
                    assert(done_next =~= done + seq![value]);
                    match decode_columns(types, idx + 1, remaining@) {
                        Some(values) => {
                            assert(done + (seq![value] + values) =~= done_next + values);
                        },
                        None => {},
                    }
                }
                rest = remaining;
            },
            Err(error) => {
                return Err(error);
            },
        }
        idx = idx + 1;
    }
    if rest.len() != 0 {
        return Err(
            Error::Serialization("bytes remaining after decoding all key columns".to_owned()),
        );
    }
    proof {
        let done = Seq::new(idx as nat, |j: int| row@.values[j].unwrap());
        assert(done + Seq::<ValueView>::empty() =~= done);
        assert(row@.key() =~= done);
    }
    Ok(row)
}

} // verus!
