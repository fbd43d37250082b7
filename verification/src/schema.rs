//! Column types and schemas, and the layout of a row that follows from them.

use crate::error::Error;
use vstd::prelude::*;

verus! {

/// The type of a column's values.
#[derive(Clone, Copy, Debug, PartialEq, Eq, Structural)]
pub enum DataType {
    Bool,
    Int8,
    Int16,
    Int32,
    Int64,
    Timestamp,
    Float,
    Double,
    Binary,
    String,
}

impl DataType {
    /// Binary and string values vary in length; all others have a fixed width.
    pub open spec fn var_len(self) -> bool {
        self is Binary || self is String
    }

    /// The bytes a value of this type takes in a row of a batch. A
    /// variable-length value takes sixteen: an offset and a length of eight
    /// bytes each.
    pub open spec fn width(self) -> nat {
        match self {
            DataType::Bool => 1,
            DataType::Int8 => 1,
            DataType::Int16 => 2,
            DataType::Int32 => 4,
            DataType::Int64 => 8,
            DataType::Timestamp => 8,
            DataType::Float => 4,
            DataType::Double => 8,
            DataType::Binary => 16,
            DataType::String => 16,
        }
    }

    /// Whether values of this type vary in length.
    pub fn is_var_len(self) -> (v: bool)
        ensures
            v == self.var_len(),
    {
        match self {
            DataType::Binary | DataType::String => true,
            _ => false,
        }
    }

    /// The bytes a value of this type takes in a row of a batch.
    pub fn size(self) -> (n: usize)
        ensures
            n == self.width(),
    {
        match self {
            DataType::Bool => 1,
            DataType::Int8 => 1,
            DataType::Int16 => 2,
            DataType::Int32 => 4,
            DataType::Int64 => 8,
            DataType::Timestamp => 8,
            DataType::Float => 4,
            DataType::Double => 8,
            DataType::Binary => 16,
            DataType::String => 16,
        }
    }
}

/// What a column is, as contracts see it.
pub struct ColumnView {
    pub name: Seq<char>,
    pub data_type: DataType,
    pub is_nullable: bool,
}

/// A column: a stable name, a type and whether it admits null.
#[derive(Debug, PartialEq, Eq)]
pub struct ColumnSchema {
    name: String,
    data_type: DataType,
    is_nullable: bool,
}

impl View for ColumnSchema {
    type V = ColumnView;

    closed spec fn view(&self) -> ColumnView {
        ColumnView { name: self.name@, data_type: self.data_type, is_nullable: self.is_nullable }
    }
}

impl ColumnSchema {
    /// A column of the given name and type.
    pub fn new(name: &str, data_type: DataType, is_nullable: bool) -> (column: ColumnSchema)
        ensures
            column@ == (ColumnView { name: name@, data_type, is_nullable }),
    {
        ColumnSchema { name: name.to_owned(), data_type, is_nullable }
    }

    /// The column's name.
    pub fn name(&self) -> (name: &str)
        ensures
            name@ == self@.name,
    {
        self.name.as_str()
    }

    /// The column's type.
    pub fn data_type(&self) -> (data_type: DataType)
        ensures
            data_type == self@.data_type,
    {
        self.data_type
    }

    /// Whether the column admits null.
    pub fn is_nullable(&self) -> (nullable: bool)
        ensures
            nullable == self@.is_nullable,
    {
        self.is_nullable
    }

    /// A second column with the same name, type and nullability.
    pub fn duplicate(&self) -> (copy: ColumnSchema)
        ensures
            copy@ == self@,
    {
        ColumnSchema {
            name: self.name.clone(),
            data_type: self.data_type,
            is_nullable: self.is_nullable,
        }
    }
}

impl Clone for ColumnSchema {
    fn clone(&self) -> (copy: ColumnSchema)
        ensures
            copy@ == self@,
    {
        self.duplicate()
    }
}

/// The sum of the widths of the columns.
pub open spec fn widths_sum(columns: Seq<ColumnView>) -> nat
    decreases columns.len(),
{
    if columns.len() == 0 {
        0
    } else {
        widths_sum(columns.drop_last()) + columns.last().data_type.width()
    }
}

/// Whether one of the columns admits null.
pub open spec fn any_nullable(columns: Seq<ColumnView>) -> bool {
    exists|i: int| 0 <= i < columns.len() && (#[trigger] columns[i]).is_nullable
}

/// What a schema is, as contracts see it: its columns in order, the first of
/// which form the primary key.
pub struct SchemaView {
    pub columns: Seq<ColumnView>,
    pub num_primary_key_columns: nat,
}

impl SchemaView {
    /// The bytes that the values of one row take, without a null bitmap.
    pub open spec fn row_len(self) -> nat {
        widths_sum(self.columns)
    }

    /// Whether a row carries a null bitmap.
    pub open spec fn has_nullable_columns(self) -> bool {
        any_nullable(self.columns)
    }

    /// The bytes of a null bitmap: one bit per column, rounded up.
    pub open spec fn bitmap_len(self) -> nat {
        ((self.columns.len() + 7) / 8) as nat
    }

    /// The bytes of one row on the wire: the values, and the null bitmap if
    /// any column admits null.
    pub open spec fn wire_row_len(self) -> nat {
        self.row_len() + if self.has_nullable_columns() {
            self.bitmap_len()
        } else {
            0
        }
    }

    /// Where in a row the value of column `index` starts.
    pub open spec fn column_offset(self, index: int) -> nat {
        widths_sum(self.columns.take(index))
    }

    /// The types of the primary-key columns, in order.
    pub open spec fn key_types(self) -> Seq<DataType> {
        Seq::new(self.num_primary_key_columns, |i: int| self.columns[i].data_type)
    }

    /// The first column of the given name, if there is one.
    pub open spec fn first_named(self, name: Seq<char>, index: int) -> bool {
        &&& 0 <= index < self.columns.len()
        &&& self.columns[index].name == name
        &&& forall|j: int| 0 <= j < index ==> (#[trigger] self.columns[j]).name != name
    }

    /// Whether no column has the given name.
    pub open spec fn none_named(self, name: Seq<char>) -> bool {
        forall|j: int| 0 <= j < self.columns.len() ==> (#[trigger] self.columns[j]).name != name
    }
}

/// An ordered sequence of columns, the first of which form the primary key.
#[derive(Debug, PartialEq, Eq)]
pub struct Schema {
    columns: Vec<ColumnSchema>,
    num_primary_key_columns: usize,
}

impl View for Schema {
    type V = SchemaView;

    closed spec fn view(&self) -> SchemaView {
        SchemaView {
            columns: Seq::new(self.columns@.len(), |i: int| self.columns@[i]@),
            num_primary_key_columns: self.num_primary_key_columns as nat,
        }
    }
}

/// The sum grows with the number of columns taken, and each column adds at
/// most sixteen bytes.
pub proof fn lemma_widths_sum_take(columns: Seq<ColumnView>, i: int)
    requires
        0 <= i < columns.len(),
    ensures
        widths_sum(columns.take(i + 1)) == widths_sum(columns.take(i))
            + columns[i].data_type.width(),
        widths_sum(columns.take(i + 1)) <= widths_sum(columns),
    decreases columns.len() - i,
{
    assert(columns.take(i + 1).drop_last() =~= columns.take(i));
    if i + 1 < columns.len() {
        lemma_widths_sum_take(columns, i + 1);
    } else {
        assert(columns.take(i + 1) =~= columns);
    }
}

impl Schema {
    /// The schema's invariant: the primary key is made of columns it has.
    #[verifier::type_invariant]
    closed spec fn well_formed(&self) -> bool {
        self.num_primary_key_columns <= self.columns@.len()
    }

    /// A schema of the given columns whose first `num_primary_key_columns`
    /// form the primary key. A key longer than the columns is rejected.
    pub fn new(columns: Vec<ColumnSchema>, num_primary_key_columns: usize) -> (made: Result<
        Schema,
        Error,
    >)
        ensures
            num_primary_key_columns <= columns@.len() <==> made is Ok,
            made matches Ok(schema) ==> {
                &&& schema@.columns == Seq::new(columns@.len(), |i: int| columns@[i]@)
                &&& schema@.num_primary_key_columns == num_primary_key_columns
            },
            made matches Err(error) ==> error is InvalidArgument,
    {
        if num_primary_key_columns <= columns.len() {
            Ok(Schema { columns, num_primary_key_columns })
        } else {
            Err(Error::InvalidArgument("the primary key is longer than the schema".to_owned()))
        }
    }

    /// A schema of the given columns without a primary key.
    pub fn without_key(columns: Vec<ColumnSchema>) -> (schema: Schema)
        ensures
            schema@.columns == Seq::new(columns@.len(), |i: int| columns@[i]@),
            schema@.num_primary_key_columns == 0,
    {
        Schema { columns, num_primary_key_columns: 0 }
    }

    /// The number of columns.
    pub fn num_columns(&self) -> (n: usize)
        ensures
            n == self@.columns.len(),
    {
        self.columns.len()
    }

    /// The number of leading columns that form the primary key.
    pub fn num_primary_key_columns(&self) -> (n: usize)
        ensures
            n == self@.num_primary_key_columns,
            n <= self@.columns.len(),
    {
        proof {
            use_type_invariant(self);
        }
        self.num_primary_key_columns
    }

    /// The column at `index`.
    pub fn column(&self, index: usize) -> (column: &ColumnSchema)
        requires
            index < self@.columns.len(),
        ensures
            column@ == self@.columns[index as int],
    {
        &self.columns[index]
    }

    /// Accepts an index that names a column and rejects any other.
    pub fn check_index(&self, index: usize) -> (checked: Result<(), Error>)
        ensures
            index < self@.columns.len() <==> checked is Ok,
            checked matches Err(error) ==> error is InvalidArgument,
    {
        if index < self.columns.len() {
            Ok(())
        } else {
            Err(Error::InvalidArgument("the column index is out of range".to_owned()))
        }
    }

    /// The index of the first column of the given name.
    pub fn column_index(&self, name: &str) -> (found: Option<usize>)
        ensures
            match found {
                Some(index) => self@.first_named(name@, index as int),
                None => self@.none_named(name@),
            },
    {
        let wanted = name.to_owned();
        let mut i: usize = 0;
        while i < self.columns.len()
            invariant
                i <= self.columns@.len(),
                wanted@ == name@,
                forall|j: int| 0 <= j < i ==> (#[trigger] self@.columns[j]).name != name@,
            decreases self.columns@.len() - i,
        {
            if self.columns[i].name == wanted {
                return Some(i);
            }
            i = i + 1;
        }
        None
    }

    /// The bytes that the values of one row take, without a null bitmap, or
    /// `None` where that number does not fit the machine's word.
    pub fn row_len(&self) -> (len: Option<usize>)
        ensures
            match len {
                Some(n) => n == self@.row_len(),
                None => self@.row_len() > usize::MAX,
            },
    {
        let mut total: usize = 0;
        let mut i: usize = 0;
        while i < self.columns.len()
            invariant
                i <= self.columns@.len(),
                total == widths_sum(self@.columns.take(i as int)),
            decreases self.columns@.len() - i,
        {
            proof {
                lemma_widths_sum_take(self@.columns, i as int);
            }
            match total.checked_add(self.columns[i].data_type.size()) {
                Some(next) => {
                    total = next;
                },
                None => {
                    return None;
                },
            }
            i = i + 1;
        }
        proof {
            assert(self@.columns.take(i as int) =~= self@.columns);
        }
        Some(total)
    }

    /// Where in a row the value of column `index` starts, or `None` where
    /// that number does not fit the machine's word.
    pub fn column_offset(&self, index: usize) -> (offset: Option<usize>)
        requires
            index <= self@.columns.len(),
        ensures
            match offset {
                Some(n) => n == self@.column_offset(index as int),
                None => self@.column_offset(index as int) > usize::MAX,
            },
    {
        let mut total: usize = 0;
        let mut i: usize = 0;
        while i < index
            invariant
                i <= index <= self.columns@.len(),
                total == widths_sum(self@.columns.take(i as int)),
            decreases index - i,
        {
            proof {
                lemma_widths_sum_take(self@.columns, i as int);
            }
            match total.checked_add(self.columns[i].data_type.size()) {
                Some(next) => {
                    total = next;
                },
                None => {
                    proof {
                        lemma_widths_sum_prefix(self@.columns, i + 1, index as int);
                    }
                    return None;
                },
            }
            i = i + 1;
        }
        Some(total)
    }

    /// Whether some column admits null, so that rows carry a null bitmap.
    pub fn has_nullable_columns(&self) -> (any: bool)
        ensures
            any == self@.has_nullable_columns(),
    {
        let mut i: usize = 0;
        while i < self.columns.len()
            invariant
                i <= self.columns@.len(),
                forall|j: int| 0 <= j < i ==> !(#[trigger] self@.columns[j]).is_nullable,
            decreases self.columns@.len() - i,
        {
            if self.columns[i].is_nullable {
                assert(self@.columns[i as int].is_nullable);
                return true;
            }
            i = i + 1;
        }
        false
    }

    /// The bytes of a null bitmap: one bit per column, rounded up.
    pub fn bitmap_len(&self) -> (len: usize)
        ensures
            len == self@.bitmap_len(),
    {
        let n = self.columns.len();
        if n % 8 == 0 {
            n / 8
        } else {
            n / 8 + 1
        }
    }

    /// The bytes of one row on the wire, or `None` where that number does not
    /// fit the machine's word.
    pub fn wire_row_len(&self) -> (len: Option<usize>)
        ensures
            match len {
                Some(n) => n == self@.wire_row_len(),
                None => self@.wire_row_len() > usize::MAX,
            },
    {
        match self.row_len() {
            Some(values) => {
                if self.has_nullable_columns() {
                    values.checked_add(self.bitmap_len())
                } else {
                    Some(values)
                }
            },
            None => None,
        }
    }

    /// A second schema with the same columns and the same primary key.
    pub fn duplicate(&self) -> (copy: Schema)
        ensures
            copy@ == self@,
    {
        proof {
            use_type_invariant(self);
        }
        let mut columns: Vec<ColumnSchema> = Vec::new();
        let mut i: usize = 0;
        while i < self.columns.len()
            invariant
                i <= self.columns@.len(),
                columns@.len() == i,
                forall|j: int| 0 <= j < i ==> (#[trigger] columns@[j])@ == self.columns@[j]@,
            decreases self.columns@.len() - i,
        {
            columns.push(self.columns[i].duplicate());
            i = i + 1;
        }
        let copy = Schema { columns, num_primary_key_columns: self.num_primary_key_columns };
        proof {
            assert(copy@.columns =~= self@.columns);
        }
        copy
    }
}

impl Clone for Schema {
    fn clone(&self) -> (copy: Schema)
        ensures
            copy@ == self@,
    {
        self.duplicate()
    }
}

/// The sum over a shorter prefix is at most the sum over a longer one.
pub proof fn lemma_widths_sum_prefix(columns: Seq<ColumnView>, i: int, j: int)
    requires
        0 <= i <= j <= columns.len(),
    ensures
        widths_sum(columns.take(i)) <= widths_sum(columns.take(j)),
    decreases j - i,
{
    if i < j {
        lemma_widths_sum_take(columns, j - 1);
        lemma_widths_sum_prefix(columns, i, j - 1);
    }
}

} // verus!
