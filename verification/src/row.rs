//! Values and rows. A row under construction holds, per column of its
//! schema, either nothing yet or a value of the column's type.

use crate::error::Error;
use crate::schema::{DataType, Schema, SchemaView};
use vstd::prelude::*;
use vstd::slice::slice_to_vec;

verus! {

/// A value of one of the column types. A timestamp is held as microseconds
/// since the epoch; a float or a double is held as the bits of its IEEE-754
/// form.
#[derive(Debug, PartialEq, Eq)]
pub enum Value {
    Bool(bool),
    Int8(i8),
    Int16(i16),
    Int32(i32),
    Int64(i64),
    Timestamp(i64),
    Float(u32),
    Double(u64),
    Binary(Vec<u8>),
    String(String),
}

/// What a value is, as contracts see it.
pub enum ValueView {
    Bool(bool),
    Int8(i8),
    Int16(i16),
    Int32(i32),
    Int64(i64),
    Timestamp(i64),
    Float(u32),
    Double(u64),
    Binary(Seq<u8>),
    String(Seq<char>),
}

impl ValueView {
    /// The column type that the value belongs to.
    pub open spec fn data_type(self) -> DataType {
        match self {
            ValueView::Bool(_) => DataType::Bool,
            ValueView::Int8(_) => DataType::Int8,
            ValueView::Int16(_) => DataType::Int16,
            ValueView::Int32(_) => DataType::Int32,
            ValueView::Int64(_) => DataType::Int64,
            ValueView::Timestamp(_) => DataType::Timestamp,
            ValueView::Float(_) => DataType::Float,
            ValueView::Double(_) => DataType::Double,
            ValueView::Binary(_) => DataType::Binary,
            ValueView::String(_) => DataType::String,
        }
    }
}

impl View for Value {
    type V = ValueView;

    open spec fn view(&self) -> ValueView {
        match *self {
            Value::Bool(v) => ValueView::Bool(v),
            Value::Int8(v) => ValueView::Int8(v),
            Value::Int16(v) => ValueView::Int16(v),
            Value::Int32(v) => ValueView::Int32(v),
            Value::Int64(v) => ValueView::Int64(v),
            Value::Timestamp(v) => ValueView::Timestamp(v),
            Value::Float(v) => ValueView::Float(v),
            Value::Double(v) => ValueView::Double(v),
            Value::Binary(v) => ValueView::Binary(v@),
            Value::String(v) => ValueView::String(v@),
        }
    }
}

impl Value {
    /// The column type that the value belongs to.
    pub fn data_type(&self) -> (data_type: DataType)
        ensures
            data_type == self@.data_type(),
    {
        match self {
            Value::Bool(_) => DataType::Bool,
            Value::Int8(_) => DataType::Int8,
            Value::Int16(_) => DataType::Int16,
            Value::Int32(_) => DataType::Int32,
            Value::Int64(_) => DataType::Int64,
            Value::Timestamp(_) => DataType::Timestamp,
            Value::Float(_) => DataType::Float,
            Value::Double(_) => DataType::Double,
            Value::Binary(_) => DataType::Binary,
            Value::String(_) => DataType::String,
        }
    }

    /// A second value equal to this one.
    pub fn duplicate(&self) -> (copy: Value)
        ensures
            copy@ == self@,
    {
        match self {
            Value::Bool(v) => Value::Bool(*v),
            Value::Int8(v) => Value::Int8(*v),
            Value::Int16(v) => Value::Int16(*v),
            Value::Int32(v) => Value::Int32(*v),
            Value::Int64(v) => Value::Int64(*v),
            Value::Timestamp(v) => Value::Timestamp(*v),
            Value::Float(v) => Value::Float(*v),
            Value::Double(v) => Value::Double(*v),
            Value::Binary(v) => Value::Binary(slice_to_vec(v.as_slice())),
            Value::String(v) => Value::String(v.clone()),
        }
    }
}

impl Clone for Value {
    fn clone(&self) -> (copy: Value)
        ensures
            copy@ == self@,
    {
        self.duplicate()
    }
}

/// What a row is, as contracts see it: its schema and, per column, the value
/// if one is set.
pub struct RowView {
    pub schema: SchemaView,
    pub values: Seq<Option<ValueView>>,
}

impl RowView {
    /// Every value that is set has the type of its column, and there is one
    /// slot per column.
    pub open spec fn well_typed(self) -> bool {
        &&& self.values.len() == self.schema.columns.len()
        &&& self.schema.num_primary_key_columns <= self.schema.columns.len()
        &&& forall|i: int|
            0 <= i < self.values.len() ==> ((#[trigger] self.values[i]) matches Some(v)
                ==> v.data_type() == self.schema.columns[i].data_type)
    }

    /// Whether every primary-key column has a value.
    pub open spec fn key_is_set(self) -> bool {
        forall|i: int|
            0 <= i < self.schema.num_primary_key_columns ==> (#[trigger] self.values[i]).is_some()
    }

    /// The values of the primary-key columns, in order.
    pub open spec fn key(self) -> Seq<ValueView> {
        Seq::new(self.schema.num_primary_key_columns, |i: int| self.values[i].unwrap())
    }
}

/// A row under construction.
#[derive(Debug, PartialEq, Eq)]
pub struct Row {
    schema: Schema,
    values: Vec<Option<Value>>,
}

/// The view of a slot: the view of the value in it, if any.
pub open spec fn slot_view(slot: Option<Value>) -> Option<ValueView> {
    match slot {
        Some(v) => Some(v@),
        None => None,
    }
}

impl View for Row {
    type V = RowView;

    closed spec fn view(&self) -> RowView {
        RowView {
            schema: self.schema@,
            values: Seq::new(self.values@.len(), |i: int| slot_view(self.values@[i])),
        }
    }
}

impl Row {
    /// A row of the schema with no value set.
    pub fn new(schema: Schema) -> (row: Row)
        ensures
            row@.schema == schema@,
            row@.values == Seq::new(schema@.columns.len(), |i: int| None::<ValueView>),
            row@.well_typed(),
    {
        let n = schema.num_columns();
        let _ = schema.num_primary_key_columns();
        let mut values: Vec<Option<Value>> = Vec::new();
        let mut i: usize = 0;
        while i < n
            invariant
                i <= n,
                values@.len() == i,
                forall|j: int| 0 <= j < i ==> (#[trigger] values@[j]) is None,
            decreases n - i,
        {
            values.push(None);
            i = i + 1;
        }
        let row = Row { schema, values };
        proof {
            assert(row@.values =~= Seq::new(schema@.columns.len(), |i: int| None::<ValueView>));
        }
        row
    }

    /// The row's schema.
    pub fn schema(&self) -> (schema: &Schema)
        ensures
            schema@ == self@.schema,
    {
        &self.schema
    }

    /// The value of column `index`, where the row has that column and its
    /// value is set.
    pub fn get(&self, index: usize) -> (value: Option<&Value>)
        ensures
            match value {
                Some(v) => index < self@.values.len() && self@.values[index as int] == Some(v@),
                None => index >= self@.values.len() || self@.values[index as int] is None,
            },
    {
        if index < self.values.len() {
            match &self.values[index] {
                Some(v) => Some(v),
                None => None,
            }
        } else {
            None
        }
    }

    /// Sets the value of column `index`. A column the row does not have, or
    /// a value of another type than the column's, is rejected and leaves the
    /// row as it was.
    pub fn set(&mut self, index: usize, value: Value) -> (done: Result<(), Error>)
        requires
            old(self)@.well_typed(),
        ensures
            done is Ok <==> index < old(self)@.values.len() && value@.data_type() == old(
                self,
            )@.schema.columns[index as int].data_type,
            done is Ok ==> final(self)@ == (RowView {
                schema: old(self)@.schema,
                values: old(self)@.values.update(index as int, Some(value@)),
            }),
            done matches Err(error) ==> error is InvalidArgument && final(self)@ == old(self)@,
            final(self)@.well_typed(),
    {
        if index >= self.values.len() {
            return Err(Error::InvalidArgument("the column index is out of range".to_owned()));
        }
        if value.data_type() != self.schema.column(index).data_type() {
            return Err(Error::InvalidArgument("the value is not of the column's type".to_owned()));
        }
        let ghost before = self@;
        self.values.set(index, Some(value));
        proof {
            assert(self@.values =~= before.values.update(index as int, Some(value@)));
        }
        Ok(())
    }
}

} // verus!
