//! What holds of the primary-key codec: decoding undoes encoding, and the
//! dictionary order of encoded keys is the order of the key tuples.

use crate::endian::{
    be_bytes, be_value, lemma_be_bytes_len, lemma_be_order, lemma_be_round_trip,
    lemma_lex_common_prefix, lemma_lex_same_len_prefix, lemma_lex_total, lemma_radix_pow_values,
    lex_lt, radix_pow,
};
use crate::key::{
    biased, decode_bytes, decode_columns, decode_key, decode_value, encode_bytes, encode_columns,
    encode_key, encode_value, escape, escape_body, escape_byte, float_image, unescape,
};
use crate::row::{RowView, ValueView};
use crate::schema::DataType;
use vstd::prelude::*;
use vstd::utf8::encode_utf8;

verus! {

/// The column types of the values of a key, in order.
pub open spec fn types_of(key: Seq<ValueView>) -> Seq<DataType> {
    Seq::new(key.len(), |i: int| key[i].data_type())
}

/// Escaping works byte by byte from the front as well.
pub proof fn lemma_escape_body_front(b: u8, value: Seq<u8>)
    ensures
        escape_body(seq![b] + value) == escape_byte(b) + escape_body(value),
    decreases value.len(),
{
    let whole = seq![b] + value;
    if value.len() == 0 {
        assert(whole.drop_last() =~= Seq::<u8>::empty());
        assert(escape_body(whole.drop_last()) =~= Seq::<u8>::empty());
        assert(escape_body(whole) =~= escape_byte(b));
        assert(escape_byte(b) + escape_body(value) =~= escape_byte(b));
    } else {
        assert(whole.drop_last() =~= seq![b] + value.drop_last());
        assert(whole.last() == value.last());
        lemma_escape_body_front(b, value.drop_last());
        assert(escape_body(whole) =~= escape_byte(b) + escape_body(value));
    }
}

/// An escaped value followed by anything reads back as the value and what
/// followed it.
pub proof fn lemma_unescape_escape(value: Seq<u8>, tail: Seq<u8>)
    ensures
        unescape(escape(value) + tail) == Some((value, tail)),
    decreases value.len(),
{
    let bytes = escape(value) + tail;
    if value.len() == 0 {
        assert(escape_body(value) =~= Seq::<u8>::empty());
        assert(bytes =~= seq![0u8, 0u8] + tail);
        assert(bytes.skip(2) =~= tail);
        assert(bytes[0] == 0 && bytes[1] == 0);
    } else {
        let b = value[0];
        let rest = value.drop_first();
        assert(value =~= seq![b] + rest);
        lemma_escape_body_front(b, rest);
        lemma_unescape_escape(rest, tail);
        assert(bytes =~= escape_byte(b) + (escape(rest) + tail));
        if b != 0 {
            assert(bytes[0] == b);
            assert(bytes.drop_first() =~= escape(rest) + tail);
            assert(seq![b] + rest =~= value);
        } else {
            assert(bytes[0] == 0 && bytes[1] == 1);
            assert(bytes.skip(2) =~= escape(rest) + tail);
            assert(seq![0u8] + rest =~= value);
        }
    }
}

/// A number of `width` bytes followed by anything reads back as the number.
proof fn lemma_fixed_round_trip(image: nat, width: nat, tail: Seq<u8>)
    requires
        image < radix_pow(width),
    ensures
        be_bytes(image, width).len() == width,
        (be_bytes(image, width) + tail).take(width as int) == be_bytes(image, width),
        (be_bytes(image, width) + tail).skip(width as int) == tail,
        be_value((be_bytes(image, width) + tail).take(width as int)) == image,
{
    lemma_be_bytes_len(image, width);
    lemma_be_round_trip(image, width);
    let bytes = be_bytes(image, width) + tail;
    assert(bytes.take(width as int) =~= be_bytes(image, width));
    assert(bytes.skip(width as int) =~= tail);
}

/// One encoded column followed by anything reads back as the value and what
/// followed it. After the last column nothing follows.
pub proof fn lemma_value_round_trip(value: ValueView, is_last: bool, tail: Seq<u8>)
    requires
        is_last ==> tail.len() == 0,
    ensures
        decode_value(value.data_type(), is_last, encode_value(value, is_last) + tail) == Some(
            (value, tail),
        ),
{
    lemma_radix_pow_values();
    let bytes = encode_value(value, is_last) + tail;
    match value {
        ValueView::Bool(b) => {
            assert(bytes.skip(1) =~= tail);
            assert(bytes[0] == (if b { 1u8 } else { 0u8 }));
        },
        ValueView::Int8(x) => {
            lemma_fixed_round_trip(biased(x as int, 1), 1, tail);
        },
        ValueView::Int16(x) => {
            lemma_fixed_round_trip(biased(x as int, 2), 2, tail);
        },
        ValueView::Int32(x) => {
            lemma_fixed_round_trip(biased(x as int, 4), 4, tail);
        },
        ValueView::Int64(x) => {
            lemma_fixed_round_trip(biased(x as int, 8), 8, tail);
        },
        ValueView::Timestamp(x) => {
            lemma_fixed_round_trip(biased(x as int, 8), 8, tail);
        },
        ValueView::Float(bits) => {
            lemma_fixed_round_trip(float_image(bits as nat, 4), 4, tail);
        },
        ValueView::Double(bits) => {
            lemma_fixed_round_trip(float_image(bits as nat, 8), 8, tail);
        },
        ValueView::Binary(raw) => {
            lemma_bytes_round_trip(raw, is_last, tail);
        },
        ValueView::String(chars) => {
            lemma_bytes_round_trip(encode_utf8(chars), is_last, tail);
            vstd::utf8::encode_utf8_valid_utf8(chars);
            vstd::utf8::encode_utf8_decode_utf8(chars);
        },
    }
}

/// An encoded binary column followed by anything reads back as the bytes
/// and what followed them. After the last column nothing follows.
pub proof fn lemma_bytes_round_trip(raw: Seq<u8>, is_last: bool, tail: Seq<u8>)
    requires
        is_last ==> tail.len() == 0,
    ensures
        decode_bytes(encode_bytes(raw, is_last) + tail, is_last) == Some((raw, tail)),
{
    if is_last {
        assert(raw + tail =~= raw);
        assert(tail =~= Seq::<u8>::empty());
    } else {
        lemma_unescape_escape(raw, tail);
    }
}

/// The encoded columns from `from` on read back as their values.
pub proof fn lemma_columns_round_trip(key: Seq<ValueView>, from: int)
    requires
        0 <= from <= key.len(),
    ensures
        decode_columns(types_of(key), from, encode_columns(key, from)) == Some(key.skip(from)),
    decreases key.len() - from,
{
    let types = types_of(key);
    if from == key.len() {
        assert(key.skip(from) =~= Seq::<ValueView>::empty());
    } else {
        let is_last = from + 1 == key.len();
        let tail = encode_columns(key, from + 1);
        lemma_value_round_trip(key[from], is_last, tail);
        lemma_columns_round_trip(key, from + 1);
        assert(seq![key[from]] + key.skip(from + 1) =~= key.skip(from));
    }
}

/// Codec round trip: decoding the encoding of a key, under the types of its
/// values, gives the key back.
pub proof fn lemma_key_round_trip(key: Seq<ValueView>)
    ensures
        decode_key(types_of(key), encode_key(key)) == Some(key),
{
    lemma_columns_round_trip(key, 0);
    assert(key.skip(0) =~= key);
}

/// Codec round trip, of rows: for a row that is valid under its schema and
/// has its primary key set, decoding the encoded key under the schema gives
/// the values of the key back.
pub proof fn lemma_row_round_trip(row: RowView)
    requires
        row.well_typed(),
        row.key_is_set(),
    ensures
        decode_key(row.schema.key_types(), encode_key(row.key())) == Some(row.key()),
{
    lemma_key_round_trip(row.key());
    assert(types_of(row.key()) =~= row.schema.key_types());
}

/// The place of an IEEE-754 number of `width` bytes among all of them, from
/// its bits: a number with the sign bit clear stands at its bits, one with
/// the sign bit set stands below zero, the further the larger its magnitude.
/// So negative zero stands just below positive zero.
pub open spec fn float_rank(bits: nat, width: nat) -> int {
    let half = radix_pow(width) / 2;
    if bits < half {
        bits as int
    } else {
        half - 1 - bits
    }
}

/// The order of two values of one column type. Byte strings and strings
/// compare as their bytes do; values of different types do not compare.
pub open spec fn value_lt(a: ValueView, b: ValueView) -> bool {
    match (a, b) {
        (ValueView::Bool(x), ValueView::Bool(y)) => !x && y,
        (ValueView::Int8(x), ValueView::Int8(y)) => x < y,
        (ValueView::Int16(x), ValueView::Int16(y)) => x < y,
        (ValueView::Int32(x), ValueView::Int32(y)) => x < y,
        (ValueView::Int64(x), ValueView::Int64(y)) => x < y,
        (ValueView::Timestamp(x), ValueView::Timestamp(y)) => x < y,
        (ValueView::Float(x), ValueView::Float(y)) => float_rank(x as nat, 4) < float_rank(
            y as nat,
            4,
        ),
        (ValueView::Double(x), ValueView::Double(y)) => float_rank(x as nat, 8) < float_rank(
            y as nat,
            8,
        ),
        (ValueView::Binary(x), ValueView::Binary(y)) => lex_lt(x, y),
        (ValueView::String(x), ValueView::String(y)) => lex_lt(encode_utf8(x), encode_utf8(y)),
        _ => false,
    }
}

/// The order of two key tuples from column `from` on: the first column in
/// which they differ decides.
pub open spec fn tuple_lt(a: Seq<ValueView>, b: Seq<ValueView>, from: int) -> bool
    decreases a.len() - from,
{
    if from < 0 || from >= a.len() || from >= b.len() {
        false
    } else if a[from] == b[from] {
        tuple_lt(a, b, from + 1)
    } else {
        value_lt(a[from], b[from])
    }
}

/// The order of two key tuples.
pub open spec fn key_lt(a: Seq<ValueView>, b: Seq<ValueView>) -> bool {
    tuple_lt(a, b, 0)
}

/// Escaping keeps the order of values, whatever follows the terminators.
pub proof fn lemma_escape_order(a: Seq<u8>, b: Seq<u8>, x: Seq<u8>, y: Seq<u8>)
    requires
        lex_lt(a, b),
    ensures
        lex_lt(escape(a) + x, escape(b) + y),
    decreases a.len(),
{
    let ea = escape(a) + x;
    let eb = escape(b) + y;
    let b0 = b[0];
    let rb = b.drop_first();
    assert(b =~= seq![b0] + rb);
    lemma_escape_body_front(b0, rb);
    assert(eb =~= escape_byte(b0) + (escape(rb) + y));
    if a.len() == 0 {
        assert(escape_body(a) =~= Seq::<u8>::empty());
        assert(ea =~= seq![0u8, 0u8] + x);
        assert(ea[0] == 0);
        if b0 != 0 {
            assert(eb[0] == b0);
            assert(lex_lt(ea, eb));
        } else {
            assert(eb[0] == 0);
            assert(ea.drop_first()[0] == 0);
            assert(eb.drop_first()[0] == 1);
            assert(lex_lt(ea.drop_first(), eb.drop_first()));
            assert(lex_lt(ea, eb));
        }
    } else {
        let a0 = a[0];
        let ra = a.drop_first();
        assert(a =~= seq![a0] + ra);
        lemma_escape_body_front(a0, ra);
        assert(ea =~= escape_byte(a0) + (escape(ra) + x));
        if a0 != b0 {
            assert(a0 < b0);
            assert(ea[0] == a0);
            assert(eb[0] == b0);
            assert(lex_lt(ea, eb));
        } else {
            assert(lex_lt(ra, rb));
            lemma_escape_order(ra, rb, x, y);
            lemma_lex_common_prefix(escape_byte(a0), escape(ra) + x, escape(rb) + y);
            assert(lex_lt(ea, eb));
        }
    }
}

/// Of two numbers of `width` bytes the smaller is written first in
/// dictionary order, whatever follows.
pub proof fn lemma_fixed_order(ia: nat, ib: nat, width: nat, x: Seq<u8>, y: Seq<u8>)
    requires
        ia < ib < radix_pow(width),
    ensures
        lex_lt(be_bytes(ia, width) + x, be_bytes(ib, width) + y),
{
    lemma_be_bytes_len(ia, width);
    lemma_be_bytes_len(ib, width);
    lemma_be_round_trip(ia, width);
    lemma_be_round_trip(ib, width);
    lemma_be_order(be_bytes(ia, width), be_bytes(ib, width));
    lemma_lex_same_len_prefix(be_bytes(ia, width), be_bytes(ib, width), x, y);
}

/// Of two values of one type the smaller is encoded first in dictionary
/// order, whatever columns follow.
pub proof fn lemma_value_order(a: ValueView, b: ValueView, is_last: bool, x: Seq<u8>, y: Seq<u8>)
    requires
        a.data_type() == b.data_type(),
        value_lt(a, b),
        is_last ==> x.len() == 0 && y.len() == 0,
    ensures
        lex_lt(encode_value(a, is_last) + x, encode_value(b, is_last) + y),
{
    lemma_radix_pow_values();
    match (a, b) {
        (ValueView::Bool(p), ValueView::Bool(q)) => {
            assert((encode_value(a, is_last) + x)[0] == 0);
            assert((encode_value(b, is_last) + y)[0] == 1);
        },
        (ValueView::Int8(p), ValueView::Int8(q)) => {
            lemma_fixed_order(biased(p as int, 1), biased(q as int, 1), 1, x, y);
        },
        (ValueView::Int16(p), ValueView::Int16(q)) => {
            lemma_fixed_order(biased(p as int, 2), biased(q as int, 2), 2, x, y);
        },
        (ValueView::Int32(p), ValueView::Int32(q)) => {
            lemma_fixed_order(biased(p as int, 4), biased(q as int, 4), 4, x, y);
        },
        (ValueView::Int64(p), ValueView::Int64(q)) => {
            lemma_fixed_order(biased(p as int, 8), biased(q as int, 8), 8, x, y);
        },
        (ValueView::Timestamp(p), ValueView::Timestamp(q)) => {
            lemma_fixed_order(biased(p as int, 8), biased(q as int, 8), 8, x, y);
        },
        (ValueView::Float(p), ValueView::Float(q)) => {
            lemma_fixed_order(float_image(p as nat, 4), float_image(q as nat, 4), 4, x, y);
        },
        (ValueView::Double(p), ValueView::Double(q)) => {
            lemma_fixed_order(float_image(p as nat, 8), float_image(q as nat, 8), 8, x, y);
        },
        (ValueView::Binary(p), ValueView::Binary(q)) => {
            lemma_bytes_order(p, q, is_last, x, y);
        },
        (ValueView::String(p), ValueView::String(q)) => {
            lemma_bytes_order(encode_utf8(p), encode_utf8(q), is_last, x, y);
        },
        _ => {},
    }
}

/// Of two byte strings the smaller is encoded first in dictionary order,
/// whatever columns follow.
pub proof fn lemma_bytes_order(a: Seq<u8>, b: Seq<u8>, is_last: bool, x: Seq<u8>, y: Seq<u8>)
    requires
        lex_lt(a, b),
        is_last ==> x.len() == 0 && y.len() == 0,
    ensures
        lex_lt(encode_bytes(a, is_last) + x, encode_bytes(b, is_last) + y),
{
    if is_last {
        assert(a + x =~= a);
        assert(b + y =~= b);
    } else {
        lemma_escape_order(a, b, x, y);
    }
}

/// Of two different values of one type, one is the smaller.
pub proof fn lemma_value_total(a: ValueView, b: ValueView)
    requires
        a.data_type() == b.data_type(),
        a != b,
    ensures
        value_lt(a, b) || value_lt(b, a),
{
    lemma_radix_pow_values();
    match (a, b) {
        (ValueView::Binary(p), ValueView::Binary(q)) => {
            lemma_lex_total(p, q);
        },
        (ValueView::String(p), ValueView::String(q)) => {
            vstd::utf8::encode_utf8_decode_utf8(p);
            vstd::utf8::encode_utf8_decode_utf8(q);
            lemma_lex_total(encode_utf8(p), encode_utf8(q));
        },
        _ => {},
    }
}

/// From column `from` on, two keys of the same column types compare as
/// their encodings do.
pub proof fn lemma_columns_order(a: Seq<ValueView>, b: Seq<ValueView>, from: int)
    requires
        types_of(a) == types_of(b),
        0 <= from <= a.len(),
    ensures
        tuple_lt(a, b, from) <==> lex_lt(encode_columns(a, from), encode_columns(b, from)),
    decreases a.len() - from,
{
    assert(a.len() == types_of(a).len());
    assert(b.len() == types_of(b).len());
    if from < a.len() {
        let va = a[from];
        let vb = b[from];
        assert(va.data_type() == types_of(a)[from]);
        assert(vb.data_type() == types_of(b)[from]);
        let is_last = from + 1 == a.len();
        let x = encode_columns(a, from + 1);
        let y = encode_columns(b, from + 1);
        let ea = encode_value(va, is_last) + x;
        let eb = encode_value(vb, is_last) + y;
        assert(encode_columns(a, from) == ea);
        assert(encode_columns(b, from) == eb);
        if va == vb {
            lemma_columns_order(a, b, from + 1);
            lemma_lex_common_prefix(encode_value(va, is_last), x, y);
        } else {
            lemma_value_total(va, vb);
            lemma_lex_total(ea, eb);
            if value_lt(va, vb) {
                lemma_value_order(va, vb, is_last, x, y);
            }
            if value_lt(vb, va) {
                lemma_value_order(vb, va, is_last, y, x);
            }
        }
    }
}

/// Codec order: two keys of the same column types compare as their
/// encodings do in dictionary order, and are equal exactly when their
/// encodings are.
pub proof fn lemma_key_order(a: Seq<ValueView>, b: Seq<ValueView>)
    requires
        types_of(a) == types_of(b),
    ensures
        key_lt(a, b) <==> lex_lt(encode_key(a), encode_key(b)),
        key_lt(b, a) <==> lex_lt(encode_key(b), encode_key(a)),
        a == b <==> encode_key(a) == encode_key(b),
{
    lemma_columns_order(a, b, 0);
    lemma_columns_order(b, a, 0);
    lemma_key_round_trip(a);
    lemma_key_round_trip(b);
}

/// Codec order, of rows: two rows that are valid under one schema and have
/// their primary keys set compare by their keys as their encoded keys do.
pub proof fn lemma_row_order(r1: RowView, r2: RowView)
    requires
        r1.schema == r2.schema,
        r1.well_typed(),
        r2.well_typed(),
        r1.key_is_set(),
        r2.key_is_set(),
    ensures
        key_lt(r1.key(), r2.key()) <==> lex_lt(encode_key(r1.key()), encode_key(r2.key())),
        key_lt(r2.key(), r1.key()) <==> lex_lt(encode_key(r2.key()), encode_key(r1.key())),
        r1.key() == r2.key() <==> encode_key(r1.key()) == encode_key(r2.key()),
{
    assert(types_of(r1.key()) =~= r1.schema.key_types());
    assert(types_of(r2.key()) =~= r2.schema.key_types());
    lemma_key_order(r1.key(), r2.key());
}

} // verus!
