//! The identifier of a replicated operation: the leader's term and the
//! operation's index within that term, and its form on the wire. Both fields
//! are optional on the wire; fields that are not known are kept as they
//! came.

use crate::endian::{append, same_bytes};
use crate::error::Error;
use crate::wire::{
    lemma_parse_takes_bytes, lemma_parse_varint64, lemma_varint_len, lemma_varint_len_u64,
    parse_varint64, read_varint, varint, varint_len, write_varint,
};
use vstd::prelude::*;
use vstd::slice::{slice_subrange, slice_to_vec};

verus! {

/// What an operation id is, as contracts see it.
pub struct OpIdView {
    pub term: Option<i64>,
    pub index: Option<i64>,
    /// The fields that are not known, as they stand on the wire.
    pub unknown: Seq<u8>,
}

/// The most bytes of unknown fields that an operation id keeps.
pub open spec fn unknown_limit() -> nat {
    0x7fff_ffff
}

/// A 64-bit number read as a signed one in two's complement.
pub open spec fn signed_of(u: u64) -> i64 {
    if u < 0x8000_0000_0000_0000 {
        u as i64
    } else {
        (u - 0x1_0000_0000_0000_0000) as i64
    }
}

/// A signed 64-bit number as the unsigned one with the same bits.
pub open spec fn unsigned_of(v: i64) -> u64 {
    if v >= 0 {
        v as u64
    } else {
        (v + 0x1_0000_0000_0000_0000) as u64
    }
}

/// A field of a signed 64-bit number on the wire: its number with the wire
/// type zero, then the value, both of variable length. An absent field
/// takes no bytes.
pub open spec fn field_bytes(number: nat, value: Option<i64>) -> Seq<u8> {
    match value {
        Some(v) => varint(number * 8) + varint(unsigned_of(v) as nat),
        None => Seq::empty(),
    }
}

/// The bytes that a field takes on the wire.
pub open spec fn field_size(number: nat, value: Option<i64>) -> nat {
    match value {
        Some(v) => varint_len(number * 8) + varint_len(unsigned_of(v) as nat),
        None => 0,
    }
}

/// An operation id on the wire: the term, the index, the unknown fields.
pub open spec fn wire_of(id: OpIdView) -> Seq<u8> {
    field_bytes(1, id.term) + field_bytes(2, id.index) + id.unknown
}

/// The bytes that the payload of an unknown field takes, by its wire type:
/// a variable-length number, eight bytes, a length and that many bytes, or
/// four bytes. Other wire types are not read.
pub open spec fn payload_len(wire_type: u64, s: Seq<u8>) -> Option<nat> {
    if wire_type == 0 {
        match parse_varint64(s) {
            Some((_, n)) => Some(n),
            None => None,
        }
    } else if wire_type == 1 {
        if s.len() >= 8 {
            Some(8)
        } else {
            None
        }
    } else if wire_type == 2 {
        match parse_varint64(s) {
            Some((len, n)) => if n + len <= s.len() {
                Some(n + len as nat)
            } else {
                None
            },
            None => None,
        }
    } else if wire_type == 5 {
        if s.len() >= 4 {
            Some(4)
        } else {
            None
        }
    } else {
        None
    }
}

/// The operation id after the fields in `s` from `pos` on are merged into
/// it: a term or an index replaces the one before, an unknown field is kept.
/// There is none where a tag or a value does not read or reaches past the
/// end, a tag has the field number zero or does not fit 32 bits, a term or
/// an index has another wire type than zero, or the unknown fields grow past
/// their limit.
pub open spec fn merged_from(id: OpIdView, s: Seq<u8>, pos: int) -> Option<OpIdView>
    decreases s.len() - pos,
{
    if pos < 0 || pos >= s.len() {
        Some(id)
    } else {
        match parse_varint64(s.skip(pos)) {
            None => None,
            Some((tag, n)) => {
                let field = tag / 8;
                let wire_type = tag % 8;
                let at = pos + n;
                if n == 0 || tag > u32::MAX || field == 0 {
                    None
                } else if field == 1 || field == 2 {
                    if wire_type != 0 {
                        None
                    } else {
                        match parse_varint64(s.skip(at)) {
                            None => None,
                            Some((v, m)) => if at + m > s.len() {
                                None
                            } else {
                                merged_from(
                                    if field == 1 {
                                        OpIdView { term: Some(signed_of(v)), ..id }
                                    } else {
                                        OpIdView { index: Some(signed_of(v)), ..id }
                                    },
                                    s,
                                    at + m,
                                )
                            },
                        }
                    }
                } else {
                    match payload_len(wire_type, s.skip(at)) {
                        None => None,
                        Some(m) => if at + m > s.len() {
                            None
                        } else {
                            let unknown = id.unknown + s.subrange(pos, at + m);
                            if unknown.len() > unknown_limit() {
                                None
                            } else {
                                merged_from(OpIdView { unknown, ..id }, s, at + m)
                            }
                        },
                    }
                }
            },
        }
    }
}

/// An operation id. A field that was never set reads as `0` and reports
/// itself as absent.
#[derive(Debug)]
pub struct OpId {
    term: Option<i64>,
    index: Option<i64>,
    unknown_fields: Vec<u8>,
}

impl View for OpId {
    type V = OpIdView;

    closed spec fn view(&self) -> OpIdView {
        OpIdView { term: self.term, index: self.index, unknown: self.unknown_fields@ }
    }
}

/// `protobuf::rt::int64_size`: the bytes that a field of a signed 64-bit
/// number takes on the wire, tag and value.
#[verifier::external_body]
fn int64_size(field_number: u32, value: i64) -> (size: u64)
    ensures
        size == varint_len(field_number as nat * 8) + varint_len(unsigned_of(value) as nat),
{
    protobuf::rt::int64_size(field_number, value)
}

/// A serialization error with the message given, for bytes that are no operation id.
fn malformed(message: &str) -> (error: Error)
    ensures
        error matches Error::Serialization(text) && text@ == message@,
{
    Error::Serialization(message.to_owned())
}

/// A 64-bit number read as a signed one in two's complement.
fn to_signed(u: u64) -> (v: i64)
    ensures
        v == signed_of(u),
{
    if u < 0x8000_0000_0000_0000 {
        u as i64
    } else {
        (u as i128 - 0x1_0000_0000_0000_0000) as i64
    }
}

/// A signed 64-bit number as the unsigned one with the same bits.
fn to_unsigned(v: i64) -> (u: u64)
    ensures
        u == unsigned_of(v),
{
    if v >= 0 {
        v as u64
    } else {
        (v as i128 + 0x1_0000_0000_0000_0000) as u64
    }
}

/// Where the payload of an unknown field ends, if it reads.
fn payload_end(bytes: &[u8], at: usize, wire_type: u64) -> (end: Option<usize>)
    requires
        at <= bytes@.len(),
    ensures
        match payload_len(wire_type, bytes@.skip(at as int)) {
            Some(m) => end == Some((at + m) as usize) && at + m <= bytes@.len(),
            None => end is None,
        },
{
    let len = bytes.len();
    if wire_type == 0 {
        match read_varint(bytes, at) {
            Some((_, next)) => Some(next),
            None => None,
        }
    } else if wire_type == 1 {
        if len - at >= 8 {
            Some(at + 8)
        } else {
            None
        }
    } else if wire_type == 2 {
        match read_varint(bytes, at) {
            Some((length, next)) => {
                if length <= (len - next) as u64 {
                    Some(next + length as usize)
                } else {
                    None
                }
            },
            None => None,
        }
    } else if wire_type == 5 {
        if len - at >= 4 {
            Some(at + 4)
        } else {
            None
        }
    } else {
        None
    }
}

impl OpId {
    #[verifier::type_invariant]
    closed spec fn inv(&self) -> bool {
        self.unknown_fields@.len() <= unknown_limit()
    }

    /// The term as stored, absent or present.
    pub open spec fn term_field(&self) -> Option<i64> {
        self@.term
    }

    /// The index as stored, absent or present.
    pub open spec fn index_field(&self) -> Option<i64> {
        self@.index
    }

    /// The value a getter reports for a field: its content, or `0` when absent.
    pub open spec fn or_zero(field: Option<i64>) -> i64 {
        match field {
            Some(v) => v,
            None => 0,
        }
    }

    /// An id with neither field set and no unknown fields.
    pub fn new() -> (id: OpId)
        ensures
            id@ == (OpIdView { term: None, index: None, unknown: Seq::empty() }),
    {
        OpId { term: None, index: None, unknown_fields: Vec::new() }
    }

    /// Forgets the term; all else is untouched.
    pub fn clear_term(&mut self)
        ensures
            final(self)@ == (OpIdView { term: None, ..old(self)@ }),
    {
        proof {
            use_type_invariant(&*self);
        }
        self.term = None;
    }

    /// Whether a term is present.
    pub fn has_term(&self) -> (present: bool)
        ensures
            present == self@.term.is_some(),
    {
        self.term.is_some()
    }

    /// Stores `v` as the term; all else is untouched.
    pub fn set_term(&mut self, v: i64)
        ensures
            final(self)@ == (OpIdView { term: Some(v), ..old(self)@ }),
    {
        proof {
            use_type_invariant(&*self);
        }
        self.term = Some(v);
    }

    /// The term, or `0` when none is present.
    pub fn get_term(&self) -> (v: i64)
        ensures
            v == Self::or_zero(self@.term),
    {
        match self.term {
            Some(v) => v,
            None => 0,
        }
    }

    /// Forgets the index; all else is untouched.
    pub fn clear_index(&mut self)
        ensures
            final(self)@ == (OpIdView { index: None, ..old(self)@ }),
    {
        proof {
            use_type_invariant(&*self);
        }
        self.index = None;
    }

    /// Whether an index is present.
    pub fn has_index(&self) -> (present: bool)
        ensures
            present == self@.index.is_some(),
    {
        self.index.is_some()
    }

    /// Stores `v` as the index; all else is untouched.
    pub fn set_index(&mut self, v: i64)
        ensures
            final(self)@ == (OpIdView { index: Some(v), ..old(self)@ }),
    {
        proof {
            use_type_invariant(&*self);
        }
        self.index = Some(v);
    }

    /// The index, or `0` when none is present.
    pub fn get_index(&self) -> (v: i64)
        ensures
            v == Self::or_zero(self@.index),
    {
        match self.index {
            Some(v) => v,
            None => 0,
        }
    }

    /// Both fields are required: the id is complete once each is present.
    pub fn is_initialized(&self) -> (complete: bool)
        ensures
            complete == (self@.term.is_some() && self@.index.is_some()),
    {
        self.term.is_some() && self.index.is_some()
    }

    /// Forgets both fields and the unknown ones.
    pub fn clear(&mut self)
        ensures
            final(self)@ == (OpIdView { term: None, index: None, unknown: Seq::empty() }),
    {
        self.clear_term();
        self.clear_index();
        self.unknown_fields = Vec::new();
    }

    /// The unknown fields, as they stand on the wire.
    pub fn get_unknown_fields(&self) -> (bytes: &[u8])
        ensures
            bytes@ == self@.unknown,
            bytes@.len() <= unknown_limit(),
    {
        proof {
            use_type_invariant(self);
        }
        self.unknown_fields.as_slice()
    }

    /// The number of bytes the id takes on the wire.
    pub fn compute_size(&self) -> (size: u64)
        ensures
            size == wire_of(self@).len(),
    {
        proof {
            use_type_invariant(self);
        }
        let mut my_size: u64 = 0;
        proof {
            lemma_varint_len(8);
            lemma_varint_len(16);
            lemma_varint_len_u64(8);
            lemma_varint_len_u64(16);
        }
        match self.term {
            Some(value) => {
                proof {
                    lemma_varint_len(unsigned_of(value) as nat);
                    lemma_varint_len_u64(unsigned_of(value));
                }
                my_size = my_size + int64_size(1, value);
            },
            None => {},
        }
        match self.index {
            Some(value) => {
                proof {
                    lemma_varint_len(unsigned_of(value) as nat);
                    lemma_varint_len_u64(unsigned_of(value));
                }
                my_size = my_size + int64_size(2, value);
            },
            None => {},
        }
        my_size = my_size + self.unknown_fields.len() as u64;
        my_size
    }

    /// Appends the id as it stands on the wire: the term, the index, the
    /// unknown fields.
    pub fn write_to(&self, out: &mut Vec<u8>)
        ensures
            final(out)@ == old(out)@ + wire_of(self@),
    {
        let ghost start = out@;
        match self.term {
            Some(v) => {
                write_varint(out, 8);
                write_varint(out, to_unsigned(v));
            },
            None => {},
        }
        proof {
            assert(out@ =~= start + field_bytes(1, self@.term));
        }
        match self.index {
            Some(v) => {
                write_varint(out, 16);
                write_varint(out, to_unsigned(v));
            },
            None => {},
        }
        proof {
            assert(out@ =~= start + field_bytes(1, self@.term) + field_bytes(2, self@.index));
        }
        append(out, self.unknown_fields.as_slice());
        proof {
            assert(out@ =~= start + wire_of(self@));
        }
    }

    /// Merges the fields in `bytes` into the id: a term or an index replaces
    /// the one before, an unknown field is kept as it came. Bytes that do
    /// not read as fields are a serialization error and change nothing.
    pub fn merge_from(&mut self, bytes: &[u8]) -> (done: Result<(), Error>)
        ensures
            match merged_from(old(self)@, bytes@, 0) {
                Some(id) => done is Ok && final(self)@ == id,
                None => (done matches Err(error) && error is Serialization) && final(self)@ == old(
                    self,
                )@,
            },
    {
        proof {
            use_type_invariant(&*self);
        }
        let mut term = self.term;
        let mut index = self.index;
        let mut unknown = slice_to_vec(self.unknown_fields.as_slice());
        let len = bytes.len();
        let mut pos: usize = 0;
        while pos < len
            invariant
                pos <= len,
                len == bytes@.len(),
                unknown@.len() <= unknown_limit(),
                merged_from(old(self)@, bytes@, 0) == merged_from(
                    OpIdView { term, index, unknown: unknown@ },
                    bytes@,
                    pos as int,
                ),
            decreases len - pos,
        {
            proof {
                lemma_parse_takes_bytes(bytes@.skip(pos as int));
            }
            let (tag, at) = match read_varint(bytes, pos) {
                Some(read) => read,
                None => {
                    return Err(malformed("an operation id field has no tag"));
                },
            };
            let field = tag / 8;
            let wire_type = tag % 8;
            if tag > 0xffff_ffff || field == 0 {
                return Err(malformed("an operation id field has an invalid tag"));
            }
            if field == 1 || field == 2 {
                if wire_type != 0 {
                    return Err(malformed("an operation id field has an unexpected wire type"));
                }
                proof {
                    lemma_parse_takes_bytes(bytes@.skip(at as int));
                }
                let (value, next) = match read_varint(bytes, at) {
                    Some(read) => read,
                    None => {
                        return Err(malformed("an operation id field has no value"));
                    },
                };
                if field == 1 {
                    term = Some(to_signed(value));
                } else {
                    index = Some(to_signed(value));
                }
                pos = next;
            } else {
                proof {
                    lemma_parse_takes_bytes(bytes@.skip(at as int));
                }
                let end = match payload_end(bytes, at, wire_type) {
                    Some(end) => end,
                    None => {
                        return Err(malformed("an unknown field does not read"));
                    },
                };
                if end - pos > 0x7fff_ffff - unknown.len() {
                    return Err(malformed("the unknown fields are too long"));
                }
                append(&mut unknown, slice_subrange(bytes, pos, end));
                pos = end;
            }
        }
        self.term = term;
        self.index = index;
        self.unknown_fields = unknown;
        Ok(())
    }

    /// The id that the bytes spell, or a serialization error.
    pub fn parse_from_bytes(bytes: &[u8]) -> (parsed: Result<OpId, Error>)
        ensures
            match merged_from(
                OpIdView { term: None, index: None, unknown: Seq::empty() },
                bytes@,
                0,
            ) {
                Some(id) => parsed matches Ok(p) && p@ == id,
                None => parsed matches Err(error) && error is Serialization,
            },
    {
        let mut id = OpId::new();
        match id.merge_from(bytes) {
            Ok(()) => Ok(id),
            Err(error) => Err(error),
        }
    }
}

impl Clone for OpId {
    fn clone(&self) -> (copy: OpId)
        ensures
            copy@ == self@,
    {
        proof {
            use_type_invariant(self);
        }
        OpId {
            term: self.term,
            index: self.index,
            unknown_fields: slice_to_vec(self.unknown_fields.as_slice()),
        }
    }
}

impl Default for OpId {
    fn default() -> (id: OpId)
        ensures
            id@ == (OpIdView { term: None, index: None, unknown: Seq::empty() }),
    {
        OpId::new()
    }
}

impl PartialEq for OpId {
    fn eq(&self, other: &OpId) -> (same: bool) {
        self.term == other.term && self.index == other.index && same_bytes(
            self.unknown_fields.as_slice(),
            other.unknown_fields.as_slice(),
        )
    }
}

impl vstd::std_specs::cmp::PartialEqSpecImpl for OpId {
    open spec fn obeys_eq_spec() -> bool {
        true
    }

    open spec fn eq_spec(&self, other: &OpId) -> bool {
        self@ == other@
    }
}

/// A field of a term or an index, followed by anything, merges as its
/// value.
proof fn lemma_field_merges(id: OpIdView, s: Seq<u8>, pos: int, number: nat, v: i64)
    requires
        number == 1 || number == 2,
        0 <= pos < s.len(),
        exists|tail: Seq<u8>| s.skip(pos) == field_bytes(number, Some(v)) + tail,
    ensures
        merged_from(id, s, pos) == merged_from(
            if number == 1 {
                OpIdView { term: Some(v), ..id }
            } else {
                OpIdView { index: Some(v), ..id }
            },
            s,
            pos + field_size(number, Some(v)),
        ),
        pos + field_size(number, Some(v)) <= s.len(),
{
    let tail = choose|tail: Seq<u8>| s.skip(pos) == field_bytes(number, Some(v)) + tail;
    let u = unsigned_of(v);
    let tag = (number * 8) as u64;
    assert(varint(number * 8) =~= seq![(number * 8) as u8]);
    assert(varint_len(number * 8) == 1);
    lemma_varint_len(u as nat);
    lemma_varint_len_u64(u);
    assert(s.skip(pos) =~= varint(tag as nat) + (varint(u as nat) + tail));
    lemma_parse_varint64(tag, varint(u as nat) + tail);
    assert(s.skip(pos + 1) =~= s.skip(pos).skip(1));
    assert(s.skip(pos + 1) =~= varint(u as nat) + tail);
    lemma_parse_varint64(u, tail);
    assert(signed_of(u) == v);
    assert(s.skip(pos).len() == s.len() - pos);
    assert((varint(tag as nat) + (varint(u as nat) + tail)).len() >= 1 + varint_len(u as nat));
}

/// Wire round trip: the bytes written for an id without unknown fields read
/// back as that id.
pub proof fn lemma_wire_round_trip(term: Option<i64>, index: Option<i64>)
    ensures
        merged_from(
            OpIdView { term: None, index: None, unknown: Seq::empty() },
            wire_of(OpIdView { term, index, unknown: Seq::empty() }),
            0,
        ) == Some(OpIdView { term, index, unknown: Seq::empty() }),
{
    let blank = OpIdView { term: None, index: None, unknown: Seq::empty() };
    let id = OpIdView { term, index, unknown: Seq::empty() };
    let s = wire_of(id);
    let with_term = OpIdView { term, ..blank };
    let n1 = field_size(1, term) as int;
    let n2 = field_size(2, index) as int;
    assert(s =~= field_bytes(1, term) + field_bytes(2, index));
    match term {
        Some(t) => {
            lemma_varint_len(8);
            lemma_varint_len(unsigned_of(t) as nat);
            assert(s.skip(0) =~= field_bytes(1, term) + field_bytes(2, index));
            lemma_field_merges(blank, s, 0, 1, t);
        },
        None => {},
    }
    assert(merged_from(blank, s, 0) == merged_from(with_term, s, n1));
    match index {
        Some(i) => {
            lemma_varint_len(16);
            lemma_varint_len(unsigned_of(i) as nat);
            match term {
                Some(t) => {
                    lemma_varint_len(8);
                    lemma_varint_len(unsigned_of(t) as nat);
                },
                None => {},
            }
            assert(field_bytes(1, term).len() == n1);
            assert(s.skip(n1) =~= field_bytes(2, index) + Seq::<u8>::empty());
            lemma_field_merges(with_term, s, n1, 2, i);
        },
        None => {
            match term {
                Some(t) => {
                    lemma_varint_len(8);
                    lemma_varint_len(unsigned_of(t) as nat);
                },
                None => {},
            }
            assert(s.len() == n1);
        },
    }
}

} // verus!
