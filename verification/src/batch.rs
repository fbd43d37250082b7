//! Row batches: one server response decoded into rows that can be read in
//! place.

use crate::endian::{le_value, radix_pow, read_le_u16, read_le_u32, read_le_u64};
use crate::error::Error;
use crate::pb::RowwiseRowBlockPb;
use crate::row::{Value, ValueView};
use crate::schema::{DataType, Schema, SchemaView};
use bytes::{Bytes, BytesMut};
use vstd::prelude::*;
use vstd::slice::{slice_subrange, slice_to_vec};
use vstd::utf8::{decode_utf8, valid_utf8};

verus! {

/// An immutable, shared byte buffer of the `bytes` crate.
#[verifier::external_type_specification]
#[verifier::external_body]
pub struct ExBytes(bytes::Bytes);

/// A uniquely owned, growable byte buffer of the `bytes` crate.
#[verifier::external_type_specification]
#[verifier::external_body]
pub struct ExBytesMut(bytes::BytesMut);

/// The bytes that a `Bytes` buffer holds.
pub uninterp spec fn bytes_contents(buffer: Bytes) -> Seq<u8>;

/// The bytes that a `BytesMut` buffer holds.
pub uninterp spec fn bytes_mut_contents(buffer: BytesMut) -> Seq<u8>;

/// `BytesMut::new`: a buffer that holds nothing.
#[verifier::external_body]
fn empty_bytes_mut() -> (buffer: BytesMut)
    ensures
        bytes_mut_contents(buffer) == Seq::<u8>::empty(),
{
    BytesMut::new()
}

/// `Bytes::new`: a buffer that holds nothing.
#[verifier::external_body]
fn empty_bytes() -> (buffer: Bytes)
    ensures
        bytes_contents(buffer) == Seq::<u8>::empty(),
{
    Bytes::new()
}

/// `BytesMut::freeze`: the same bytes, from now on immutable.
#[verifier::external_body]
fn freeze(buffer: BytesMut) -> (frozen: Bytes)
    ensures
        bytes_contents(frozen) == bytes_mut_contents(buffer),
{
    buffer.freeze()
}

/// `BytesMut::len`: the number of bytes the buffer holds.
#[verifier::external_body]
fn bytes_mut_len(buffer: &BytesMut) -> (len: usize)
    ensures
        len == bytes_mut_contents(*buffer).len(),
{
    buffer.len()
}

/// `AsRef<[u8]> for Bytes`: the bytes the buffer holds, as a slice.
#[verifier::external_body]
fn bytes_slice(buffer: &Bytes) -> (slice: &[u8])
    ensures
        slice@ == bytes_contents(*buffer),
{
    buffer.as_ref()
}

/// Takes the buffer at `index` out of `sidecars` and leaves an empty one in
/// its place.
fn take_sidecar(sidecars: &mut Vec<BytesMut>, index: usize) -> (taken: BytesMut)
    requires
        index < old(sidecars)@.len(),
    ensures
        taken == old(sidecars)@[index as int],
        final(sidecars)@.len() == old(sidecars)@.len(),
        bytes_mut_contents(final(sidecars)@[index as int]) == Seq::<u8>::empty(),
        forall|i: int|
            0 <= i < old(sidecars)@.len() && i != index ==> final(sidecars)@[i] == old(
                sidecars,
            )@[i],
{
    let mut taken = empty_bytes_mut();
    core::mem::swap(&mut sidecars[index], &mut taken);
    taken
}

/// What each of the sidecars holds.
pub open spec fn sidecar_bytes(sidecars: Seq<BytesMut>) -> Seq<Seq<u8>> {
    Seq::new(sidecars.len(), |i: int| bytes_mut_contents(sidecars[i]))
}

/// The sidecar that holds the rows. The header must name one that came with
/// the response.
pub open spec fn rows_sidecar(block: RowwiseRowBlockPb, sidecars: Seq<Seq<u8>>) -> Option<
    Seq<u8>,
> {
    match block.rows_sidecar {
        Some(index) => if 0 <= index < sidecars.len() {
            Some(sidecars[index as int])
        } else {
            None
        },
        None => None,
    }
}

/// The sidecar that holds the variable-length values. A header that names
/// none stands for an empty one; one that names the rows sidecar again finds
/// it already taken, and so empty.
pub open spec fn indirect_sidecar(block: RowwiseRowBlockPb, sidecars: Seq<Seq<u8>>) -> Option<
    Seq<u8>,
> {
    match block.indirect_data_sidecar {
        Some(index) => if 0 <= index < sidecars.len() {
            if block.rows_sidecar == Some(index) {
                Some(Seq::empty())
            } else {
                Some(sidecars[index as int])
            }
        } else {
            None
        },
        None => Some(Seq::empty()),
    }
}

/// What a batch is, as contracts see it.
pub struct RowBatchView {
    pub schema: SchemaView,
    pub len: nat,
    pub data: Seq<u8>,
    pub indirect_data: Seq<u8>,
}

/// The value that `width` bytes denote, least significant first, read as a
/// signed integer in two's complement.
pub open spec fn signed(image: nat, width: nat) -> int {
    if image >= radix_pow(width) / 2 {
        image - radix_pow(width)
    } else {
        image as int
    }
}

/// Whether bit `bit` of a byte is set, counting from the least significant.
pub open spec fn bit_set(byte: u8, bit: u8) -> bool {
    (byte >> bit) & 1 == 1
}

impl RowBatchView {
    /// The rows fill the data exactly.
    pub open spec fn well_formed(self) -> bool {
        self.data.len() == self.len * self.schema.wire_row_len()
    }

    /// The bytes of row `row`.
    pub open spec fn row_bytes(self, row: int) -> Seq<u8> {
        self.data.subrange(
            row * self.schema.wire_row_len(),
            (row + 1) * self.schema.wire_row_len(),
        )
    }

    /// The bytes of column `column` in row `row`.
    pub open spec fn cell_bytes(self, row: int, column: int) -> Seq<u8> {
        self.row_bytes(row).subrange(
            self.schema.column_offset(column) as int,
            (self.schema.column_offset(column) + self.schema.columns[column].data_type.width())
                as int,
        )
    }

    /// Whether the batch has row `row` and column `column`, and the column's
    /// values vary in length.
    pub open spec fn has_var_len(self, row: int, column: int) -> bool {
        &&& 0 <= row < self.len
        &&& 0 <= column < self.schema.columns.len()
        &&& self.schema.columns[column].data_type.var_len()
    }

    /// Whether column `column` is null in row `row`: its bit is set in the
    /// bitmap that follows the values, if rows carry one.
    pub open spec fn is_null(self, row: int, column: int) -> bool {
        self.schema.has_nullable_columns() && bit_set(
            self.row_bytes(row)[self.schema.row_len() + column / 8],
            (column % 8) as u8,
        )
    }

    /// The stretch of the indirect data that a variable-length cell points
    /// to: eight bytes of offset, then eight of length. There is none where
    /// it reaches past the end.
    pub open spec fn indirect(self, cell: Seq<u8>) -> Option<Seq<u8>> {
        let offset = le_value(cell.subrange(0, 8));
        let length = le_value(cell.subrange(8, 16));
        if offset + length <= self.indirect_data.len() {
            Some(self.indirect_data.subrange(offset as int, (offset + length) as int))
        } else {
            None
        }
    }

    /// The value of a column that is not null, from the bytes of its cell.
    /// There is none where a variable-length value reaches past the indirect
    /// data or a string is not UTF-8.
    pub open spec fn cell_value(self, data_type: DataType, cell: Seq<u8>) -> Option<ValueView> {
        match data_type {
            DataType::Bool => Some(ValueView::Bool(cell[0] != 0)),
            DataType::Int8 => Some(ValueView::Int8(signed(cell[0] as nat, 1) as i8)),
            DataType::Int16 => Some(ValueView::Int16(signed(le_value(cell), 2) as i16)),
            DataType::Int32 => Some(ValueView::Int32(signed(le_value(cell), 4) as i32)),
            DataType::Int64 => Some(ValueView::Int64(signed(le_value(cell), 8) as i64)),
            DataType::Timestamp => Some(ValueView::Timestamp(signed(le_value(cell), 8) as i64)),
            DataType::Float => Some(ValueView::Float(le_value(cell) as u32)),
            DataType::Double => Some(ValueView::Double(le_value(cell) as u64)),
            DataType::Binary => match self.indirect(cell) {
                Some(bytes) => Some(ValueView::Binary(bytes)),
                None => None,
            },
            DataType::String => match self.indirect(cell) {
                Some(bytes) => if valid_utf8(bytes) {
                    Some(ValueView::String(decode_utf8(bytes)))
                } else {
                    None
                },
                None => None,
            },
        }
    }

    /// The value of column `column` in row `row`: `Some(None)` for null,
    /// nothing where the cell is malformed.
    pub open spec fn value(self, row: int, column: int) -> Option<Option<ValueView>> {
        if self.is_null(row, column) {
            Some(None)
        } else {
            match self.cell_value(
                self.schema.columns[column].data_type,
                self.cell_bytes(row, column),
            ) {
                Some(value) => Some(Some(value)),
                None => None,
            }
        }
    }
}

/// The batch that a response decodes to. There is none where the header
/// names no rows sidecar or one that did not come, names an indirect-data
/// sidecar that did not come, states a negative number of rows, or the rows
/// do not fill the rows sidecar exactly.
pub open spec fn decoded(
    schema: SchemaView,
    block: RowwiseRowBlockPb,
    sidecars: Seq<Seq<u8>>,
) -> Option<RowBatchView> {
    match (rows_sidecar(block, sidecars), indirect_sidecar(block, sidecars)) {
        (Some(data), Some(indirect_data)) => if block.rows() >= 0 && schema.wire_row_len()
            <= usize::MAX && block.rows() * schema.wire_row_len() == data.len() {
            Some(RowBatchView { schema, len: block.rows() as nat, data, indirect_data })
        } else {
            None
        },
        _ => None,
    }
}

/// One decoded response: a number of rows of the projected schema, laid out
/// one after the other, and the buffer that their variable-length values
/// point into.
pub struct RowBatch {
    projected_schema: Schema,
    len: usize,
    row_len: usize,
    data: Bytes,
    indirect_data: Bytes,
}

impl View for RowBatch {
    type V = RowBatchView;

    closed spec fn view(&self) -> RowBatchView {
        RowBatchView {
            schema: self.projected_schema@,
            len: self.len as nat,
            data: bytes_contents(self.data),
            indirect_data: bytes_contents(self.indirect_data),
        }
    }
}

/// A serialization error with the message given, for a response that does not decode.
fn malformed(message: &str) -> (error: Error)
    ensures
        error matches Error::Serialization(text) && text@ == message@,
{
    Error::Serialization(message.to_owned())
}

impl RowBatch {
    #[verifier::type_invariant]
    closed spec fn inv(&self) -> bool {
        &&& self.row_len == self.projected_schema@.wire_row_len()
        &&& bytes_contents(self.data).len() == self.len * self.row_len
    }

    /// Decodes one response: takes the rows sidecar and the indirect-data
    /// sidecar that the header names and checks that the stated number of
    /// rows fills the rows sidecar exactly. Anything else is a serialization
    /// error.
    pub fn new(
        projected_schema: Schema,
        block: RowwiseRowBlockPb,
        sidecars: Vec<BytesMut>,
    ) -> (made: Result<RowBatch, Error>)
        ensures
            match decoded(projected_schema@, block, sidecar_bytes(sidecars@)) {
                Some(batch) => made matches Ok(b) && b@ == batch && batch.well_formed(),
                None => made matches Err(error) && error is Serialization,
            },
    {
        let mut sidecars = sidecars;
        let ghost given = sidecar_bytes(sidecars@);
        let data = match block.rows_sidecar {
            Some(idx) => {
                if idx < 0 {
                    return Err(malformed("RowwiseRowBlockPb.row_sidecar is negative"));
                }
                if idx as usize >= sidecars.len() {
                    return Err(malformed("ScanResponsePb does not include a row sidecar"));
                }
                take_sidecar(&mut sidecars, idx as usize)
            },
            None => {
                return Err(malformed("RowwiseRowBlockPb does not include a row sidecar"));
            },
        };
        assert(Some(bytes_mut_contents(data)) == rows_sidecar(block, given));
        let indirect_data = match block.indirect_data_sidecar {
            Some(idx) => {
                if idx < 0 {
                    return Err(malformed("RowwiseRowBlockPb.indirect_data_sidecar is negative"));
                }
                if idx as usize >= sidecars.len() {
                    return Err(
                        malformed("ScanResponsePb does not include an indirect data sidecar"),
                    );
                }
                freeze(take_sidecar(&mut sidecars, idx as usize))
            },
            None => empty_bytes(),
        };
        assert(Some(bytes_contents(indirect_data)) == indirect_sidecar(block, given));
        let num_rows = block.num_rows();
        if num_rows < 0 {
            return Err(malformed("RowwiseRowBlockPb.num_rows is negative"));
        }
        let row_len = match projected_schema.wire_row_len() {
            Some(row_len) => row_len,
            None => {
                return Err(malformed("the projected row is too long"));
            },
        };
        let len = num_rows as usize;
        let data_len = bytes_mut_len(&data);
        match len.checked_mul(row_len) {
            Some(expected) => {
                if expected != data_len {
                    return Err(
                        malformed("RowwiseRowBlockPb.num_rows does not match row_sidecar length"),
                    );
                }
            },
            None => {
                return Err(malformed("RowwiseRowBlockPb.num_rows is invalid"));
            },
        }
        Ok(RowBatch { projected_schema, len, row_len, data: freeze(data), indirect_data })
    }

    /// The schema of the rows.
    pub fn projected_schema(&self) -> (schema: &Schema)
        ensures
            schema@ == self@.schema,
    {
        &self.projected_schema
    }

    /// The number of rows.
    pub fn num_rows(&self) -> (n: usize)
        ensures
            n == self@.len,
            self@.well_formed(),
    {
        proof {
            use_type_invariant(self);
        }
        self.len
    }

    /// The bytes of one row: the values, and the null bitmap if any column
    /// admits null.
    pub fn row_len(&self) -> (n: usize)
        ensures
            n == self@.schema.wire_row_len(),
    {
        proof {
            use_type_invariant(self);
        }
        self.row_len
    }

    /// The bytes of row `row`.
    fn row_slice(&self, row: usize) -> (bytes: &[u8])
        requires
            row < self@.len,
        ensures
            bytes@ == self@.row_bytes(row as int),
            bytes@.len() == self@.schema.wire_row_len(),
    {
        let data = bytes_slice(&self.data);
        let len = self.len;
        let row_len = self.row_len;
        let total = data.len();
        proof {
            use_type_invariant(self);
            assert(data@.len() == len * row_len);
            assert(row * row_len + row_len <= len * row_len && (row + 1) * row_len == row * row_len
                + row_len && 0 <= row * row_len) by (nonlinear_arith)
                requires
                    row < len,
                    row_len >= 0,
                    row >= 0,
            ;
        }
        let start = row * row_len;
        slice_subrange(data, start, start + row_len)
    }

    /// The stretch of the indirect data that a variable-length cell points
    /// to.
    fn indirect_slice(&self, cell: &[u8]) -> (bytes: Option<&[u8]>)
        requires
            cell@.len() == 16,
        ensures
            match self@.indirect(cell@) {
                Some(stretch) => bytes matches Some(b) && b@ == stretch,
                None => bytes is None,
            },
    {
        let offset = read_le_u64(cell);
        let tail = slice_subrange(cell, 8, 16);
        proof {
            assert(tail@.subrange(0, 8) =~= cell@.subrange(8, 16));
        }
        let length = read_le_u64(tail);
        let indirect = bytes_slice(&self.indirect_data);
        let total = indirect.len() as u64;
        if offset <= total && length <= total - offset {
            Some(slice_subrange(indirect, offset as usize, (offset + length) as usize))
        } else {
            None
        }
    }

    /// The bytes of a binary or string column in row `row`, borrowed from the
    /// batch's indirect data, or `None` where the column is null. A row or a
    /// column that the batch does not have, and a column of fixed width, is
    /// an invalid argument; a value that reaches past the indirect data is a
    /// serialization error.
    pub fn bytes(&self, row: usize, column: usize) -> (read: Result<Option<&[u8]>, Error>)
        ensures
            self@.well_formed(),
            self@.has_var_len(row as int, column as int) ==> if self@.is_null(
                row as int,
                column as int,
            ) {
                read matches Ok(None)
            } else {
                match self@.indirect(self@.cell_bytes(row as int, column as int)) {
                    Some(stretch) => read matches Ok(Some(bytes)) && bytes@ == stretch,
                    None => read matches Err(error) && error is Serialization,
                }
            },
            !self@.has_var_len(row as int, column as int) ==> (read matches Err(error)
                && error is InvalidArgument),
    {
        proof {
            use_type_invariant(self);
        }
        if row >= self.len || column >= self.projected_schema.num_columns() {
            return Err(Error::InvalidArgument("no such row or column".to_owned()));
        }
        let schema = &self.projected_schema;
        let data_type = schema.column(column).data_type();
        if !data_type.is_var_len() {
            return Err(Error::InvalidArgument("the column has a fixed width".to_owned()));
        }
        let bytes = self.row_slice(row);
        proof {
            crate::schema::lemma_widths_sum_take(schema@.columns, column as int);
        }
        let values_len = match schema.row_len() {
            Some(n) => n,
            None => {
                return Err(malformed("the projected row is too long"));
            },
        };
        let offset = match schema.column_offset(column) {
            Some(n) => n,
            None => {
                return Err(malformed("the projected row is too long"));
            },
        };
        if schema.has_nullable_columns() {
            let byte = bytes[values_len + column / 8];
            if (byte >> ((column % 8) as u8)) & 1 == 1 {
                return Ok(None);
            }
        }
        let cell = slice_subrange(bytes, offset, offset + 16);
        match self.indirect_slice(cell) {
            Some(stretch) => Ok(Some(stretch)),
            None => Err(malformed("a value reaches past the indirect data")),
        }
    }

    /// The value of column `column` in row `row`, or `None` where it is
    /// null. A row or a column that the batch does not have is an invalid
    /// argument; a variable-length value that reaches past the indirect data,
    /// or a string that is not UTF-8, is a serialization error.
    pub fn value(&self, row: usize, column: usize) -> (read: Result<Option<Value>, Error>)
        ensures
            self@.well_formed(),
            row < self@.len && column < self@.schema.columns.len() ==> match self@.value(
                row as int,
                column as int,
            ) {
                Some(Some(value)) => read matches Ok(Some(v)) && v@ == value,
                Some(None) => read matches Ok(None),
                None => read matches Err(error) && error is Serialization,
            },
            !(row < self@.len && column < self@.schema.columns.len()) ==> (read matches Err(error)
                && error is InvalidArgument),
    {
        proof {
            use_type_invariant(self);
        }
        if row >= self.len || column >= self.projected_schema.num_columns() {
            return Err(Error::InvalidArgument("no such row or column".to_owned()));
        }
        let bytes = self.row_slice(row);
        let schema = &self.projected_schema;
        let data_type = schema.column(column).data_type();
        let width = data_type.size();
        proof {
            crate::schema::lemma_widths_sum_take(schema@.columns, column as int);
        }
        let values_len = match schema.row_len() {
            Some(n) => n,
            None => {
                return Err(malformed("the projected row is too long"));
            },
        };
        let offset = match schema.column_offset(column) {
            Some(n) => n,
            None => {
                return Err(malformed("the projected row is too long"));
            },
        };
        if schema.has_nullable_columns() {
            let byte = bytes[values_len + column / 8];
            if (byte >> ((column % 8) as u8)) & 1 == 1 {
                return Ok(None);
            }
        }
        let cell = slice_subrange(bytes, offset, offset + width);
        proof {
            crate::endian::lemma_radix_pow_values();
            assert(cell@.subrange(0, cell@.len() as int) =~= cell@);
            crate::endian::lemma_le_value_bound(cell@);
        }
        let value = match data_type {
            DataType::Bool => Value::Bool(cell[0] != 0),
            DataType::Int8 => Value::Int8(
                if cell[0] >= 128 {
                    (cell[0] as i16 - 256) as i8
                } else {
                    cell[0] as i8
                },
            ),
            DataType::Int16 => {
                let image = read_le_u16(cell);
                Value::Int16(
                    if image >= 0x8000 {
                        (image as i32 - 0x1_0000) as i16
                    } else {
                        image as i16
                    },
                )
            },
            DataType::Int32 => {
                let image = read_le_u32(cell);
                Value::Int32(
                    if image >= 0x8000_0000 {
                        (image as i64 - 0x1_0000_0000) as i32
                    } else {
                        image as i32
                    },
                )
            },
            DataType::Int64 => {
                let image = read_le_u64(cell);
                Value::Int64(
                    if image >= 0x8000_0000_0000_0000 {
                        (image as i128 - 0x1_0000_0000_0000_0000) as i64
                    } else {
                        image as i64
                    },
                )
            },
            DataType::Timestamp => {
                let image = read_le_u64(cell);
                Value::Timestamp(
                    if image >= 0x8000_0000_0000_0000 {
                        (image as i128 - 0x1_0000_0000_0000_0000) as i64
                    } else {
                        image as i64
                    },
                )
            },
            DataType::Float => Value::Float(read_le_u32(cell)),
            DataType::Double => Value::Double(read_le_u64(cell)),
            DataType::Binary => match self.indirect_slice(cell) {
                Some(stretch) => Value::Binary(slice_to_vec(stretch)),
                None => {
                    return Err(malformed("a value reaches past the indirect data"));
                },
            },
            DataType::String => match self.indirect_slice(cell) {
                Some(stretch) => match crate::key::string_from_utf8(slice_to_vec(stretch)) {
                    Some(text) => Value::String(text),
                    None => {
                        return Err(malformed("a string value is not UTF-8"));
                    },
                },
                None => {
                    return Err(malformed("a value reaches past the indirect data"));
                },
            },
        };
        Ok(Some(value))
    }
}

/// One row of a batch, read in place.
pub struct BatchRow<'a> {
    batch: &'a RowBatch,
    index: usize,
}

impl<'a> BatchRow<'a> {
    #[verifier::type_invariant]
    closed spec fn inv(&self) -> bool {
        self.index < self.batch@.len
    }

    /// The batch the row belongs to.
    pub closed spec fn batch(&self) -> RowBatchView {
        self.batch@
    }

    /// The row's place in its batch.
    pub closed spec fn place(&self) -> nat {
        self.index as nat
    }

    /// The row's place in its batch, counting from zero.
    pub fn index(&self) -> (index: usize)
        ensures
            index == self.place(),
            index < self.batch().len,
    {
        proof {
            use_type_invariant(self);
        }
        self.index
    }

    /// The value of column `column`, or `None` where it is null. A column
    /// that the row does not have is an invalid argument; a malformed cell is
    /// a serialization error.
    pub fn get(&self, column: usize) -> (read: Result<Option<Value>, Error>)
        ensures
            column < self.batch().schema.columns.len() ==> match self.batch().value(
                self.place() as int,
                column as int,
            ) {
                Some(Some(value)) => read matches Ok(Some(v)) && v@ == value,
                Some(None) => read matches Ok(None),
                None => read matches Err(error) && error is Serialization,
            },
            column >= self.batch().schema.columns.len() ==> (read matches Err(error)
                && error is InvalidArgument),
    {
        proof {
            use_type_invariant(self);
        }
        self.batch.value(self.index, column)
    }
}

/// The rows of a batch, in the order the server sent them. The rows not yet
/// handed out are those from `front` up to `back`; they can be taken from
/// either end, and once none is left none comes again.
pub struct RowBatchIter<'a> {
    batch: &'a RowBatch,
    front: usize,
    back: usize,
}

impl<'a> RowBatchIter<'a> {
    #[verifier::type_invariant]
    closed spec fn inv(&self) -> bool {
        self.front <= self.back <= self.batch@.len
    }

    /// The batch whose rows are handed out.
    pub closed spec fn batch(&self) -> RowBatchView {
        self.batch@
    }

    /// The place of the next row from the front.
    pub closed spec fn front(&self) -> nat {
        self.front as nat
    }

    /// The place just past the next row from the back.
    pub closed spec fn back(&self) -> nat {
        self.back as nat
    }

    /// The next row from the front, if any is left.
    pub fn next(&mut self) -> (row: Option<BatchRow<'a>>)
        ensures
            final(self).batch() == old(self).batch(),
            final(self).back() == old(self).back(),
            old(self).front() < old(self).back() ==> (row matches Some(r) && r.place() == old(
                self,
            ).front() && r.batch() == old(self).batch() && final(self).front() == old(
                self,
            ).front() + 1),
            old(self).front() >= old(self).back() ==> row is None && final(self).front() == old(
                self,
            ).front(),
    {
        proof {
            use_type_invariant(&*self);
        }
        if self.front < self.back {
            let index = self.front;
            self.front = index + 1;
            Some(BatchRow { batch: self.batch, index })
        } else {
            None
        }
    }

    /// The number of rows left.
    pub fn len(&self) -> (left: usize)
        ensures
            left == self.back() - self.front(),
    {
        proof {
            use_type_invariant(self);
        }
        self.back - self.front
    }

    /// The next row from the back, if any is left.
    pub fn next_back(&mut self) -> (row: Option<BatchRow<'a>>)
        ensures
            final(self).batch() == old(self).batch(),
            final(self).front() == old(self).front(),
            old(self).front() < old(self).back() ==> (row matches Some(r) && r.place() + 1 == old(
                self,
            ).back() && r.batch() == old(self).batch() && final(self).back() + 1 == old(
                self,
            ).back()),
            old(self).front() >= old(self).back() ==> row is None && final(self).back() == old(
                self,
            ).back(),
    {
        proof {
            use_type_invariant(&*self);
        }
        if self.front < self.back {
            let index = self.back - 1;
            self.back = index;
            Some(BatchRow { batch: self.batch, index })
        } else {
            None
        }
    }
}

impl RowBatch {
    /// The rows of the batch, all of them still to come.
    pub fn into_iter(&self) -> (rows: RowBatchIter<'_>)
        ensures
            rows.batch() == self@,
            rows.front() == 0,
            rows.back() == self@.len,
    {
        RowBatchIter { batch: self, front: 0, back: self.len }
    }
}

} // verus!
