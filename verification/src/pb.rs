//! The messages of the scan call, as decoded values.

use crate::schema::{ColumnSchema, ColumnView, DataType};
use vstd::prelude::*;

verus! {

/// A column as a request describes it.
#[derive(Debug, PartialEq, Eq)]
pub struct ColumnSchemaPb {
    pub name: String,
    pub type_: DataType,
    pub is_nullable: Option<bool>,
}

/// What a column message is, as contracts see it.
pub struct ColumnSchemaPbView {
    pub name: Seq<char>,
    pub type_: DataType,
    pub is_nullable: Option<bool>,
}

impl View for ColumnSchemaPb {
    type V = ColumnSchemaPbView;

    open spec fn view(&self) -> ColumnSchemaPbView {
        ColumnSchemaPbView { name: self.name@, type_: self.type_, is_nullable: self.is_nullable }
    }
}

/// The message that describes a column: the same name and type, and the
/// nullability stated.
pub open spec fn column_message(column: ColumnView) -> ColumnSchemaPbView {
    ColumnSchemaPbView {
        name: column.name,
        type_: column.data_type,
        is_nullable: Some(column.is_nullable),
    }
}

/// The messages that describe the columns, in order.
pub open spec fn column_messages(columns: Seq<ColumnView>) -> Seq<ColumnSchemaPbView> {
    Seq::new(columns.len(), |i: int| column_message(columns[i]))
}

/// The message that describes a column.
pub fn column_to_pb(column: &ColumnSchema) -> (message: ColumnSchemaPb)
    ensures
        message@ == column_message(column@),
{
    ColumnSchemaPb {
        name: column.name().to_owned(),
        type_: column.data_type(),
        is_nullable: Some(column.is_nullable()),
    }
}

/// What a scan reads: the rows as they are when the server gets to them, or
/// the rows as they were at one point in time.
#[derive(Clone, Copy, Debug, PartialEq, Eq, Structural)]
pub enum ReadMode {
    ReadLatest,
    ReadAtSnapshot,
}

/// The part of a scan request that opens a scanner on a tablet.
#[derive(Debug, PartialEq, Eq)]
pub struct NewScanRequestPb {
    pub tablet_id: Vec<u8>,
    pub projected_columns: Vec<ColumnSchemaPb>,
    /// The encoded primary key to start at, if the scan is bounded below.
    pub start_primary_key: Option<Vec<u8>>,
    /// The encoded primary key to stop before, if the scan is bounded above.
    pub stop_primary_key: Option<Vec<u8>>,
    pub read_mode: ReadMode,
}

/// What the opening part of a scan request is, as contracts see it.
pub struct NewScanRequestPbView {
    pub tablet_id: Seq<u8>,
    pub projected_columns: Seq<ColumnSchemaPbView>,
    pub start_primary_key: Option<Seq<u8>>,
    pub stop_primary_key: Option<Seq<u8>>,
    pub read_mode: ReadMode,
}

/// The view of a key bound, if there is one.
pub open spec fn bound_view(bound: Option<Vec<u8>>) -> Option<Seq<u8>> {
    match bound {
        Some(key) => Some(key@),
        None => None,
    }
}

impl View for NewScanRequestPb {
    type V = NewScanRequestPbView;

    open spec fn view(&self) -> NewScanRequestPbView {
        NewScanRequestPbView {
            tablet_id: self.tablet_id@,
            projected_columns: Seq::new(
                self.projected_columns@.len(),
                |i: int| self.projected_columns@[i]@,
            ),
            start_primary_key: bound_view(self.start_primary_key),
            stop_primary_key: bound_view(self.stop_primary_key),
            read_mode: self.read_mode,
        }
    }
}

/// A scan request: it either opens a scanner or continues one.
#[derive(Debug, PartialEq, Eq)]
pub struct ScanRequestPb {
    pub scanner_id: Option<Vec<u8>>,
    pub new_scan_request: Option<NewScanRequestPb>,
    pub call_seq_id: Option<u32>,
}

/// What a scan request is, as contracts see it.
pub struct ScanRequestPbView {
    pub scanner_id: Option<Seq<u8>>,
    pub new_scan_request: Option<NewScanRequestPbView>,
    pub call_seq_id: Option<u32>,
}

impl View for ScanRequestPb {
    type V = ScanRequestPbView;

    open spec fn view(&self) -> ScanRequestPbView {
        ScanRequestPbView {
            scanner_id: match self.scanner_id {
                Some(id) => Some(id@),
                None => None,
            },
            new_scan_request: match self.new_scan_request {
                Some(request) => Some(request@),
                None => None,
            },
            call_seq_id: self.call_seq_id,
        }
    }
}

/// The request that continues a scanner with the given sequence number.
pub open spec fn continue_request(scanner_id: Seq<u8>, call_seq_id: u32) -> ScanRequestPbView {
    ScanRequestPbView {
        scanner_id: Some(scanner_id),
        new_scan_request: None,
        call_seq_id: Some(call_seq_id),
    }
}

/// The header of a block of rows: how many there are and which sidecars
/// hold them.
#[derive(Clone, Copy, Debug, PartialEq, Eq, Structural)]
pub struct RowwiseRowBlockPb {
    pub num_rows: Option<i32>,
    pub rows_sidecar: Option<i32>,
    pub indirect_data_sidecar: Option<i32>,
}

impl RowwiseRowBlockPb {
    /// The number of rows the header states; zero where it states none.
    pub open spec fn rows(&self) -> int {
        match self.num_rows {
            Some(n) => n as int,
            None => 0,
        }
    }

    /// The number of rows the header states; zero where it states none.
    pub fn num_rows(&self) -> (n: i32)
        ensures
            n == self.rows(),
    {
        match self.num_rows {
            Some(n) => n,
            None => 0,
        }
    }

    /// A header that states nothing.
    pub fn empty() -> (block: RowwiseRowBlockPb)
        ensures
            block.num_rows is None,
            block.rows_sidecar is None,
            block.indirect_data_sidecar is None,
    {
        RowwiseRowBlockPb { num_rows: None, rows_sidecar: None, indirect_data_sidecar: None }
    }
}

/// The response to a scan request.
#[derive(Debug, PartialEq, Eq)]
pub struct ScanResponsePb {
    pub scanner_id: Option<Vec<u8>>,
    pub has_more_results: Option<bool>,
    pub data: Option<RowwiseRowBlockPb>,
}

impl ScanResponsePb {
    /// Whether the server holds more rows; it does not where the response
    /// does not say.
    pub open spec fn more(&self) -> bool {
        self.has_more_results == Some(true)
    }

    /// Whether the server holds more rows.
    pub fn has_more_results(&self) -> (more: bool)
        ensures
            more == self.more(),
    {
        match self.has_more_results {
            Some(more) => more,
            None => false,
        }
    }
}

} // verus!
