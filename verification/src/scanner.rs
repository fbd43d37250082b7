//! The scan: a stream of row batches that crosses the tablets of a table in
//! key order. It is a state machine: it says what it waits for, is told how
//! that ended, and says what comes of it.

use crate::batch::{decoded, sidecar_bytes, RowBatch, RowBatchView};
use crate::error::Error;
use crate::pb::{
    column_messages, column_to_pb, continue_request, ColumnSchemaPb, NewScanRequestPb,
    NewScanRequestPbView, ReadMode, RowwiseRowBlockPb, ScanRequestPb, ScanRequestPbView,
    ScanResponsePb,
};
use crate::replica::{Selection, Speculation};
use crate::schema::{ColumnSchema, Schema, SchemaView};
use crate::tablet::{
    all_ascii, Entry, Proxy, ProxyView, ScannerId, Tablet, TabletId, TabletView,
};
use bytes::BytesMut;
use vstd::prelude::*;
use vstd::slice::slice_to_vec;

verus! {

/// Where a call goes: to the replicas of a tablet, or over one channel.
#[derive(Debug, PartialEq, Eq)]
pub enum Target {
    Tablet(Tablet),
    Proxy(Proxy),
}

/// Where a call goes, as contracts see it.
pub enum TargetView {
    Tablet(TabletView),
    Proxy(ProxyView),
}

impl View for Target {
    type V = TargetView;

    open spec fn view(&self) -> TargetView {
        match *self {
            Target::Tablet(tablet) => TargetView::Tablet(tablet@),
            Target::Proxy(proxy) => TargetView::Proxy(proxy@),
        }
    }
}

/// One scan call to be made: where it goes, what it asks, how replicas are
/// chosen and how long it may take.
#[derive(Debug, PartialEq, Eq)]
pub struct ScanCall {
    pub target: Target,
    pub request: ScanRequestPb,
    pub speculation: Speculation,
    pub selection: Selection,
    pub timeout_secs: u64,
}

/// A scan call, as contracts see it.
pub struct ScanCallView {
    pub target: TargetView,
    pub request: ScanRequestPbView,
    pub speculation: Speculation,
    pub selection: Selection,
    pub timeout_secs: u64,
}

impl View for ScanCall {
    type V = ScanCallView;

    open spec fn view(&self) -> ScanCallView {
        ScanCallView {
            target: self.target@,
            request: self.request@,
            speculation: self.speculation,
            selection: self.selection,
            timeout_secs: self.timeout_secs,
        }
    }
}

/// The call that opens a scanner: to the closest replica of the tablet, a
/// second attempt starting beside the first after 100 milliseconds, within
/// a minute.
pub open spec fn open_call(tablet: TabletView, request: NewScanRequestPbView) -> ScanCallView {
    ScanCallView {
        target: TargetView::Tablet(tablet),
        request: ScanRequestPbView {
            scanner_id: None,
            new_scan_request: Some(request),
            call_seq_id: None,
        },
        speculation: Speculation::Staggered(100),
        selection: Selection::Closest,
        timeout_secs: 60,
    }
}

/// The call that continues a scanner: over the channel that opened it and
/// no other, within a minute.
pub open spec fn continue_call(
    scanner_id: Seq<u8>,
    call_seq_id: u32,
    proxy: ProxyView,
) -> ScanCallView {
    ScanCallView {
        target: TargetView::Proxy(proxy),
        request: continue_request(scanner_id, call_seq_id),
        speculation: Speculation::Full,
        selection: Selection::Closest,
        timeout_secs: 60,
    }
}

/// What came back from a scan call: the channel that answered, the response
/// and the sidecars that arrived with it.
pub struct ScanReply {
    pub proxy: Proxy,
    pub response: ScanResponsePb,
    pub sidecars: Vec<BytesMut>,
}

impl ScanReply {
    /// The header of the rows in the response; one that states nothing where
    /// the response has none.
    pub open spec fn block(&self) -> RowwiseRowBlockPb {
        match self.response.data {
            Some(block) => block,
            None => RowwiseRowBlockPb {
                num_rows: None,
                rows_sidecar: None,
                indirect_data_sidecar: None,
            },
        }
    }

    /// The batch that the reply decodes to under the schema, if it does.
    pub open spec fn batch(&self, schema: SchemaView) -> Option<RowBatchView> {
        decoded(schema, self.block(), sidecar_bytes(self.sidecars@))
    }

    /// The scanner identifier in the response, if there is one and it is
    /// ASCII.
    pub open spec fn scanner_id(&self) -> Option<Seq<u8>> {
        match self.response.scanner_id {
            Some(id) => if all_ascii(id@) {
                Some(id@)
            } else {
                None
            },
            None => None,
        }
    }
}

/// The scan of one tablet, as contracts see it.
pub enum TabletScanView {
    New { projected_schema: SchemaView, tablet: TabletView, request: NewScanRequestPbView },
    Continue {
        projected_schema: SchemaView,
        scanner_id: Seq<u8>,
        call_seq_id: u32,
        proxy: ProxyView,
    },
    Finished,
}

impl TabletScanView {
    /// The call the tablet scan waits for, if it waits for one.
    pub open spec fn rpc(self) -> Option<ScanCallView> {
        match self {
            TabletScanView::New { tablet, request, .. } => Some(open_call(tablet, request)),
            TabletScanView::Continue { scanner_id, call_seq_id, proxy, .. } => Some(
                continue_call(scanner_id, call_seq_id, proxy),
            ),
            TabletScanView::Finished => None,
        }
    }

    /// The state after a reply to the call that was waited for, and the
    /// batch that the reply yields. Where the reply does not decode, or
    /// promises more rows without a usable scanner identifier, or the
    /// sequence numbers are used up, there is no batch and the state stays.
    pub open spec fn after(self, reply: ScanReply) -> (TabletScanView, Option<RowBatchView>) {
        match self {
            TabletScanView::New { projected_schema, .. } => match reply.batch(projected_schema) {
                Some(batch) => if !reply.response.more() {
                    (TabletScanView::Finished, Some(batch))
                } else {
                    match reply.scanner_id() {
                        Some(scanner_id) => (
                            TabletScanView::Continue {
                                projected_schema,
                                scanner_id,
                                call_seq_id: 1,
                                proxy: reply.proxy@,
                            },
                            Some(batch),
                        ),
                        None => (self, None),
                    }
                },
                None => (self, None),
            },
            TabletScanView::Continue {
                projected_schema,
                scanner_id,
                call_seq_id,
                proxy,
            } => match reply.batch(projected_schema) {
                Some(batch) => if !reply.response.more() {
                    (TabletScanView::Finished, Some(batch))
                } else if call_seq_id == u32::MAX {
                    (self, None)
                } else {
                    (
                        TabletScanView::Continue {
                            projected_schema,
                            scanner_id,
                            call_seq_id: (call_seq_id + 1) as u32,
                            proxy,
                        },
                        Some(batch),
                    )
                },
                None => (self, None),
            },
            TabletScanView::Finished => (self, None),
        }
    }
}

/// The scan of one tablet. It opens a scanner on the tablet, then continues
/// it on the replica that answered, with sequence numbers that count up from
/// one, until the server has no more rows.
pub enum TabletScan {
    New { projected_schema: Schema, tablet: Tablet, request: NewScanRequestPb },
    Continue { projected_schema: Schema, scanner_id: ScannerId, call_seq_id: u32, proxy: Proxy },
    Finished,
}

impl View for TabletScan {
    type V = TabletScanView;

    open spec fn view(&self) -> TabletScanView {
        match *self {
            TabletScan::New { projected_schema, tablet, request } => TabletScanView::New {
                projected_schema: projected_schema@,
                tablet: tablet@,
                request: request@,
            },
            TabletScan::Continue {
                projected_schema,
                scanner_id,
                call_seq_id,
                proxy,
            } => TabletScanView::Continue {
                projected_schema: projected_schema@,
                scanner_id: scanner_id@,
                call_seq_id,
                proxy: proxy@,
            },
            TabletScan::Finished => TabletScanView::Finished,
        }
    }
}

/// A second request equal to the given one.
fn duplicate_request(request: &NewScanRequestPb) -> (copy: NewScanRequestPb)
    ensures
        copy@ == request@,
{
    let mut columns: Vec<ColumnSchemaPb> = Vec::new();
    let mut i: usize = 0;
    while i < request.projected_columns.len()
        invariant
            i <= request.projected_columns@.len(),
            columns@.len() == i,
            forall|j: int| 0 <= j < i ==> (#[trigger] columns@[j])@ == request.projected_columns@[j]@,
        decreases request.projected_columns@.len() - i,
    {
        let column = &request.projected_columns[i];
        columns.push(
            ColumnSchemaPb {
                name: column.name.clone(),
                type_: column.type_,
                is_nullable: column.is_nullable,
            },
        );
        i = i + 1;
    }
    let copy = NewScanRequestPb {
        tablet_id: slice_to_vec(request.tablet_id.as_slice()),
        projected_columns: columns,
        start_primary_key: match &request.start_primary_key {
            Some(key) => Some(slice_to_vec(key.as_slice())),
            None => None,
        },
        stop_primary_key: match &request.stop_primary_key {
            Some(key) => Some(slice_to_vec(key.as_slice())),
            None => None,
        },
        read_mode: request.read_mode,
    };
    proof {
        assert(copy@.projected_columns =~= request@.projected_columns);
    }
    copy
}

impl TabletScan {
    /// The scan of a tablet that has yet to open its scanner.
    pub fn new(
        projected_schema: Schema,
        tablet: Tablet,
        new_scan_request: NewScanRequestPb,
    ) -> (scan: TabletScan)
        ensures
            scan@ == (TabletScanView::New {
                projected_schema: projected_schema@,
                tablet: tablet@,
                request: new_scan_request@,
            }),
    {
        TabletScan::New { projected_schema, tablet, request: new_scan_request }
    }

    /// The scan of a tablet whose scanner is open on the replica behind
    /// `proxy` and is to be continued with the given sequence number.
    pub fn cont(
        projected_schema: Schema,
        scanner_id: ScannerId,
        call_seq_id: u32,
        proxy: Proxy,
    ) -> (scan: TabletScan)
        ensures
            scan@ == (TabletScanView::Continue {
                projected_schema: projected_schema@,
                scanner_id: scanner_id@,
                call_seq_id,
                proxy: proxy@,
            }),
    {
        TabletScan::Continue { projected_schema, scanner_id, call_seq_id, proxy }
    }

    /// The call the tablet scan waits for: none once it has finished.
    pub fn rpc(&self) -> (call: Option<ScanCall>)
        ensures
            match self@.rpc() {
                Some(expected) => call matches Some(c) && c@ == expected,
                None => call is None,
            },
    {
        match self {
            TabletScan::New { tablet, request, .. } => Some(
                ScanCall {
                    target: Target::Tablet(tablet.duplicate()),
                    request: ScanRequestPb {
                        scanner_id: None,
                        new_scan_request: Some(duplicate_request(request)),
                        call_seq_id: None,
                    },
                    speculation: Speculation::Staggered(100),
                    selection: Selection::Closest,
                    timeout_secs: 60,
                },
            ),
            TabletScan::Continue { scanner_id, call_seq_id, proxy, .. } => Some(
                ScanCall {
                    target: Target::Proxy(proxy.duplicate()),
                    request: ScanRequestPb {
                        scanner_id: Some(scanner_id.to_bytes()),
                        new_scan_request: None,
                        call_seq_id: Some(*call_seq_id),
                    },
                    speculation: Speculation::Full,
                    selection: Selection::Closest,
                    timeout_secs: 60,
                },
            ),
            TabletScan::Finished => None,
        }
    }

    /// Takes the outcome of the call that was waited for. A reply yields its
    /// batch and, if the server has more rows, leaves the scan waiting for
    /// the continuation on the same replica; a failed call, or a reply that
    /// cannot be used, is an error and leaves the scan as it was. A finished
    /// scan yields nothing more.
    pub fn poll(&mut self, reply: Result<ScanReply, Error>) -> (polled: Result<
        Option<RowBatch>,
        Error,
    >)
        ensures
            old(self)@ is Finished ==> (polled matches Ok(None) && final(self)@ is Finished),
            !(old(self)@ is Finished) ==> match reply {
                Ok(r) => match old(self)@.after(r).1 {
                    Some(batch) => (polled matches Ok(Some(b)) && b@ == batch) && final(self)@
                        == old(self)@.after(r).0,
                    None => (polled matches Err(error) && error is Serialization) && final(self)@
                        == old(self)@,
                },
                Err(error) => polled == Err::<Option<RowBatch>, Error>(error) && final(self)@
                    == old(self)@,
            },
    {
        let mut state = TabletScan::Finished;
        core::mem::swap(self, &mut state);
        match state {
            TabletScan::New { projected_schema, tablet, request } => {
                let reply = match reply {
                    Ok(reply) => reply,
                    Err(error) => {
                        *self = TabletScan::New { projected_schema, tablet, request };
                        return Err(error);
                    },
                };
                let ScanReply { proxy, response, sidecars } = reply;
                let block = match response.data {
                    Some(block) => block,
                    None => RowwiseRowBlockPb::empty(),
                };
                let batch = match RowBatch::new(projected_schema.duplicate(), block, sidecars) {
                    Ok(batch) => batch,
                    Err(error) => {
                        *self = TabletScan::New { projected_schema, tablet, request };
                        return Err(error);
                    },
                };
                if response.has_more_results() {
                    let scanner_id = match &response.scanner_id {
                        Some(bytes) => match ScannerId::parse_bytes(bytes.as_slice()) {
                            Ok(scanner_id) => scanner_id,
                            Err(error) => {
                                *self = TabletScan::New { projected_schema, tablet, request };
                                return Err(error);
                            },
                        },
                        None => {
                            *self = TabletScan::New { projected_schema, tablet, request };
                            return Err(
                                Error::Serialization(
                                    "ScanResponsePb has no scanner_id".to_owned(),
                                ),
                            );
                        },
                    };
                    *self = TabletScan::cont(projected_schema, scanner_id, 1, proxy);
                } else {
                    *self = TabletScan::Finished;
                }
                Ok(Some(batch))
            },
            TabletScan::Continue { projected_schema, scanner_id, call_seq_id, proxy } => {
                let reply = match reply {
                    Ok(reply) => reply,
                    Err(error) => {
                        *self = TabletScan::Continue {
                            projected_schema,
                            scanner_id,
                            call_seq_id,
                            proxy,
                        };
                        return Err(error);
                    },
                };
                let ScanReply { proxy: _, response, sidecars } = reply;
                let block = match response.data {
                    Some(block) => block,
                    None => RowwiseRowBlockPb::empty(),
                };
                let batch = match RowBatch::new(projected_schema.duplicate(), block, sidecars) {
                    Ok(batch) => batch,
                    Err(error) => {
                        *self = TabletScan::Continue {
                            projected_schema,
                            scanner_id,
                            call_seq_id,
                            proxy,
                        };
                        return Err(error);
                    },
                };
                if response.has_more_results() {
                    if call_seq_id == u32::MAX {
                        *self = TabletScan::Continue {
                            projected_schema,
                            scanner_id,
                            call_seq_id,
                            proxy,
                        };
                        return Err(
                            Error::Serialization("the call sequence is used up".to_owned()),
                        );
                    }
                    *self = TabletScan::cont(projected_schema, scanner_id, call_seq_id + 1, proxy);
                } else {
                    *self = TabletScan::Finished;
                }
                Ok(Some(batch))
            },
            TabletScan::Finished => Ok(None),
        }
    }
}

/// The schema of the columns that a projection picks, in the order it picks
/// them. It has no primary key.
pub open spec fn projected(table: SchemaView, projection: Seq<usize>) -> SchemaView {
    SchemaView {
        columns: Seq::new(projection.len(), |i: int| table.columns[projection[i] as int]),
        num_primary_key_columns: 0,
    }
}

/// Builds a scan of a table: by default of all its columns, else of the
/// columns picked by index or by name.
pub struct ScanBuilder {
    table_schema: Schema,
    projected_columns: Vec<usize>,
}

impl ScanBuilder {
    #[verifier::type_invariant]
    closed spec fn inv(&self) -> bool {
        forall|i: int|
            0 <= i < self.projected_columns@.len() ==> (#[trigger] self.projected_columns@[i])
                < self.table_schema@.columns.len()
    }

    /// The schema of the table to scan.
    pub closed spec fn table_schema(&self) -> SchemaView {
        self.table_schema@
    }

    /// The indexes of the columns to return, in order.
    pub closed spec fn projection(&self) -> Seq<usize> {
        self.projected_columns@
    }

    /// A builder for a scan of every column of the table.
    pub fn new(table_schema: Schema) -> (builder: ScanBuilder)
        ensures
            builder.table_schema() == table_schema@,
            builder.projection() == Seq::new(table_schema@.columns.len(), |i: int| i as usize),
    {
        let n = table_schema.num_columns();
        let mut projected_columns: Vec<usize> = Vec::new();
        let mut i: usize = 0;
        while i < n
            invariant
                i <= n,
                projected_columns@.len() == i,
                forall|j: int| 0 <= j < i ==> (#[trigger] projected_columns@[j]) == j,
            decreases n - i,
        {
            projected_columns.push(i);
            i = i + 1;
        }
        proof {
            assert(projected_columns@ =~= Seq::new(
                table_schema@.columns.len(),
                |i: int| i as usize,
            ));
        }
        ScanBuilder { table_schema, projected_columns }
    }

    /// Picks the columns to return by index. An index that names no column
    /// of the table is an invalid argument.
    pub fn projected_columns(self, column_indexes: Vec<usize>) -> (picked: Result<
        ScanBuilder,
        Error,
    >)
        ensures
            (forall|i: int|
                0 <= i < column_indexes@.len() ==> (#[trigger] column_indexes@[i])
                    < self.table_schema().columns.len()) <==> picked is Ok,
            picked matches Ok(builder) ==> builder.table_schema() == self.table_schema()
                && builder.projection() == column_indexes@,
            picked matches Err(error) ==> error is InvalidArgument,
    {
        let ScanBuilder { table_schema, projected_columns: _ } = self;
        let mut i: usize = 0;
        while i < column_indexes.len()
            invariant
                i <= column_indexes@.len(),
                table_schema@ == self.table_schema(),
                forall|j: int|
                    0 <= j < i ==> (#[trigger] column_indexes@[j]) < table_schema@.columns.len(),
            decreases column_indexes@.len() - i,
        {
            match table_schema.check_index(column_indexes[i]) {
                Ok(()) => {},
                Err(error) => {
                    assert(!(column_indexes@[i as int] < self.table_schema().columns.len()));
                    return Err(error);
                },
            }
            i = i + 1;
        }
        Ok(ScanBuilder { table_schema, projected_columns: column_indexes })
    }

    /// Picks the columns to return by name. A name that no column of the
    /// table has is an invalid argument.
    pub fn projected_column_names(self, column_names: Vec<&str>) -> (picked: Result<
        ScanBuilder,
        Error,
    >)
        ensures
            (forall|i: int|
                0 <= i < column_names@.len() ==> !self.table_schema().none_named(
                    (#[trigger] column_names@[i])@,
                )) <==> picked is Ok,
            picked matches Ok(builder) ==> {
                &&& builder.table_schema() == self.table_schema()
                &&& builder.projection().len() == column_names@.len()
                &&& forall|i: int|
                    0 <= i < column_names@.len() ==> self.table_schema().first_named(
                        column_names@[i]@,
                        (#[trigger] builder.projection()[i]) as int,
                    )
            },
            picked matches Err(error) ==> error is InvalidArgument,
    {
        let ScanBuilder { table_schema, projected_columns: _ } = self;
        let mut projected_columns: Vec<usize> = Vec::new();
        let mut i: usize = 0;
        while i < column_names.len()
            invariant
                i <= column_names@.len(),
                projected_columns@.len() == i,
                table_schema@ == self.table_schema(),
                forall|j: int|
                    0 <= j < i ==> table_schema@.first_named(
                        column_names@[j]@,
                        (#[trigger] projected_columns@[j]) as int,
                    ),
                forall|j: int|
                    0 <= j < i ==> !table_schema@.none_named((#[trigger] column_names@[j])@),
            decreases column_names@.len() - i,
        {
            let column = column_names[i];
            match table_schema.column_index(column) {
                Some(idx) => {
                    proof {
                        assert(table_schema@.columns[idx as int].name == column@);
                    }
                    projected_columns.push(idx);
                },
                None => {
                    assert(self.table_schema().none_named(column_names@[i as int]@));
                    return Err(unknown_column(column));
                },
            }
            i = i + 1;
        }
        Ok(ScanBuilder { table_schema, projected_columns })
    }

    /// The scan: of the picked columns, from the least key on, waiting for
    /// the first lookup.
    pub fn build(self) -> (scan: Scan)
        ensures
            scan@ == (ScanView {
                projected_schema: projected(self.table_schema(), self.projection()),
                lower_bound: Seq::empty(),
                state: ScannerStateView::Lookup,
            }),
    {
        proof {
            use_type_invariant(&self);
        }
        let ScanBuilder { table_schema, projected_columns } = self;
        let mut columns: Vec<ColumnSchema> = Vec::new();
        let mut i: usize = 0;
        while i < projected_columns.len()
            invariant
                i <= projected_columns@.len(),
                columns@.len() == i,
                forall|j: int|
                    0 <= j < projected_columns@.len() ==> (#[trigger] projected_columns@[j])
                        < table_schema@.columns.len(),
                forall|j: int|
                    0 <= j < i ==> (#[trigger] columns@[j])@
                        == table_schema@.columns[projected_columns@[j] as int],
            decreases projected_columns@.len() - i,
        {
            columns.push(table_schema.column(projected_columns[i]).duplicate());
            i = i + 1;
        }
        let projected_schema = Schema::without_key(columns);
        proof {
            assert(projected_schema@.columns =~= projected(
                table_schema@,
                projected_columns@,
            ).columns);
        }
        Scan { projected_schema, lower_bound: Vec::new(), state: ScannerState::Lookup }
    }
}

/// `format!`: the message that names an unknown column.
#[verifier::external_body]
fn unknown_column_message(column: &str) -> String {
    format!("unknown column {}", column)
}

/// The error for a column name that the table does not have.
fn unknown_column(column: &str) -> (error: Error)
    ensures
        error is InvalidArgument,
{
    Error::InvalidArgument(unknown_column_message(column))
}

/// Where a scan stands, as contracts see it.
pub enum ScannerStateView {
    /// Waiting for the meta cache to resolve the lower bound.
    Lookup,
    /// Scanning one tablet.
    Scan { tablet: TabletView, tablet_scan: TabletScanView },
    /// Done, for good.
    Finished,
}

/// What a scan is, as contracts see it: the schema of its rows, the lower
/// bound that is next to be resolved, and where it stands.
pub struct ScanView {
    pub projected_schema: SchemaView,
    pub lower_bound: Seq<u8>,
    pub state: ScannerStateView,
}

/// How that what a scan waited for has ended.
pub enum Event {
    /// The lookup of the lower bound: the entry that contains it, or why
    /// there is none.
    Entry(Result<Entry, Error>),
    /// The scan call: what came back, or how it failed.
    Reply(Result<ScanReply, ScanFailure>),
}

/// A scan call that failed for good on its tablet.
pub struct ScanFailure {
    pub error: Error,
    /// Whether the tablet is gone or its leader has moved, so that resolving
    /// the lower bound again may find a tablet that serves it.
    pub recoverable: bool,
}

/// What a scan says when told how its wait has ended, as contracts see it.
pub enum Output {
    /// A batch of rows.
    Batch(RowBatchView),
    /// The end of the stream.
    Finished,
    /// Nothing yet: the scan waits again.
    Pending,
    /// The scan has failed with the given error.
    Passed(Error),
    /// The scan has failed because a reply could not be used.
    Undecodable,
    /// The scan has failed because it was told of something it did not wait
    /// for.
    Misused,
}

impl ScanView {
    /// The scan, finished.
    pub open spec fn finished(self) -> ScanView {
        ScanView { state: ScannerStateView::Finished, ..self }
    }

    /// The scan, waiting for the lookup of `lower_bound`.
    pub open spec fn looking_up(self, lower_bound: Seq<u8>) -> ScanView {
        ScanView { lower_bound, state: ScannerStateView::Lookup, ..self }
    }

    /// The scan after the last batch of a tablet: finished where the tablet
    /// has no upper bound, else waiting for the lookup of that bound.
    pub open spec fn past(self, tablet: TabletView) -> ScanView {
        if tablet.upper_bound.len() == 0 {
            self.finished()
        } else {
            self.looking_up(tablet.upper_bound)
        }
    }

    /// The request that opens a scanner on a tablet for the scan's columns:
    /// over the whole tablet, reading the rows as they are.
    pub open spec fn new_scan_request(self, tablet_id: Seq<u8>) -> NewScanRequestPbView {
        NewScanRequestPbView {
            tablet_id,
            projected_columns: column_messages(self.projected_schema.columns),
            start_primary_key: None,
            stop_primary_key: None,
            read_mode: ReadMode::ReadLatest,
        }
    }

    /// The scan, about to open a scanner on the tablet.
    pub open spec fn opening(self, tablet: TabletView) -> ScanView {
        ScanView {
            state: ScannerStateView::Scan {
                tablet,
                tablet_scan: TabletScanView::New {
                    projected_schema: self.projected_schema,
                    tablet,
                    request: self.new_scan_request(tablet.id),
                },
            },
            ..self
        }
    }

    /// The scan after it is told how its wait has ended, and what it says.
    pub open spec fn step(self, event: Event) -> (ScanView, Output) {
        match self.state {
            ScannerStateView::Finished => (self, Output::Finished),
            ScannerStateView::Lookup => match event {
                Event::Entry(Ok(Entry::Tablet(tablet))) => (self.opening(tablet@), Output::Pending),
                Event::Entry(Ok(Entry::NonCoveredRange { upper_bound, .. })) => if upper_bound@.len()
                    == 0 {
                    (self.finished(), Output::Finished)
                } else {
                    (self.looking_up(upper_bound@), Output::Pending)
                },
                Event::Entry(Err(error)) => (self.finished(), Output::Passed(error)),
                Event::Reply(_) => (self.finished(), Output::Misused),
            },
            ScannerStateView::Scan { tablet, tablet_scan } => if tablet_scan is Finished {
                (
                    self.past(tablet),
                    if tablet.upper_bound.len() == 0 {
                        Output::Finished
                    } else {
                        Output::Pending
                    },
                )
            } else {
                match event {
                    Event::Reply(Ok(reply)) => match tablet_scan.after(reply).1 {
                        Some(batch) => (
                            if tablet_scan.after(reply).0 is Finished {
                                self.past(tablet)
                            } else {
                                ScanView {
                                    state: ScannerStateView::Scan {
                                        tablet,
                                        tablet_scan: tablet_scan.after(reply).0,
                                    },
                                    ..self
                                }
                            },
                            Output::Batch(batch),
                        ),
                        None => (self.finished(), Output::Undecodable),
                    },
                    Event::Reply(Err(failure)) => if failure.recoverable {
                        (self.looking_up(self.lower_bound), Output::Pending)
                    } else {
                        (self.finished(), Output::Passed(failure.error))
                    },
                    Event::Entry(_) => (self.finished(), Output::Misused),
                }
            },
        }
    }

    /// What the scan waits for, if anything.
    pub open spec fn pending(self) -> PendingView {
        match self.state {
            ScannerStateView::Lookup => PendingView::Lookup(self.lower_bound),
            ScannerStateView::Scan { tablet_scan, .. } => match tablet_scan.rpc() {
                Some(call) => PendingView::Call(call),
                None => PendingView::Nothing,
            },
            ScannerStateView::Finished => PendingView::Nothing,
        }
    }
}

/// What a scan waits for, as contracts see it.
pub enum PendingView {
    Lookup(Seq<u8>),
    Call(ScanCallView),
    Nothing,
}

/// What a scan waits for.
pub enum Pending {
    /// The entry of the meta cache that contains the key.
    Lookup(Vec<u8>),
    /// The outcome of the scan call.
    Call(ScanCall),
    /// Nothing: the scan can be polled, or is done.
    Nothing,
}

impl View for Pending {
    type V = PendingView;

    open spec fn view(&self) -> PendingView {
        match *self {
            Pending::Lookup(key) => PendingView::Lookup(key@),
            Pending::Call(call) => PendingView::Call(call@),
            Pending::Nothing => PendingView::Nothing,
        }
    }
}

/// What a scan says when told how its wait has ended.
pub enum Polled {
    /// A batch of rows.
    Batch(RowBatch),
    /// The end of the stream.
    Finished,
    /// Nothing yet: the scan waits again, for what `pending` says.
    Pending,
    /// The scan has failed, for good.
    Failed(Error),
}

impl Polled {
    /// Whether this is what the scan was to say.
    pub open spec fn says(self, output: Output) -> bool {
        match output {
            Output::Batch(batch) => self matches Polled::Batch(b) && b@ == batch,
            Output::Finished => self is Finished,
            Output::Pending => self is Pending,
            Output::Passed(error) => self matches Polled::Failed(e) && e == error,
            Output::Undecodable => self matches Polled::Failed(e) && e is Serialization,
            Output::Misused => self matches Polled::Failed(e) && e is InvalidArgument,
        }
    }
}

/// Where a scan stands.
enum ScannerState {
    Lookup,
    Scan { tablet: Tablet, tablet_scan: TabletScan },
    Finished,
}

/// A scan of a table: a stream of row batches, tablet after tablet in key
/// order.
pub struct Scan {
    projected_schema: Schema,
    lower_bound: Vec<u8>,
    state: ScannerState,
}

impl View for Scan {
    type V = ScanView;

    closed spec fn view(&self) -> ScanView {
        ScanView {
            projected_schema: self.projected_schema@,
            lower_bound: self.lower_bound@,
            state: match self.state {
                ScannerState::Lookup => ScannerStateView::Lookup,
                ScannerState::Scan { tablet, tablet_scan } => ScannerStateView::Scan {
                    tablet: tablet@,
                    tablet_scan: tablet_scan@,
                },
                ScannerState::Finished => ScannerStateView::Finished,
            },
        }
    }
}

impl Scan {
    /// The request that opens a scanner on the tablet for the scan's columns.
    pub fn new_scan_request(&self, tablet: &TabletId) -> (request: NewScanRequestPb)
        ensures
            request@ == self@.new_scan_request(tablet@),
    {
        let mut projected_columns: Vec<ColumnSchemaPb> = Vec::new();
        let n = self.projected_schema.num_columns();
        let mut i: usize = 0;
        while i < n
            invariant
                i <= n,
                n == self.projected_schema@.columns.len(),
                projected_columns@.len() == i,
                forall|j: int|
                    0 <= j < i ==> (#[trigger] projected_columns@[j])@ == crate::pb::column_message(
                        self.projected_schema@.columns[j],
                    ),
            decreases n - i,
        {
            projected_columns.push(column_to_pb(self.projected_schema.column(i)));
            i = i + 1;
        }
        let request = NewScanRequestPb {
            tablet_id: tablet.to_bytes(),
            projected_columns,
            start_primary_key: None,
            stop_primary_key: None,
            read_mode: ReadMode::ReadLatest,
        };
        proof {
            assert(request@.projected_columns =~= column_messages(self.projected_schema@.columns));
        }
        request
    }

    /// The schema of the rows that the scan returns.
    pub fn projected_schema(&self) -> (schema: &Schema)
        ensures
            schema@ == self@.projected_schema,
    {
        &self.projected_schema
    }

    /// What the scan waits for: a lookup of its lower bound, a scan call, or
    /// nothing.
    pub fn pending(&self) -> (pending: Pending)
        ensures
            pending@ == self@.pending(),
    {
        match &self.state {
            ScannerState::Lookup => Pending::Lookup(slice_to_vec(self.lower_bound.as_slice())),
            ScannerState::Scan { tablet_scan, .. } => match tablet_scan.rpc() {
                Some(call) => Pending::Call(call),
                None => Pending::Nothing,
            },
            ScannerState::Finished => Pending::Nothing,
        }
    }

    /// Moves past a tablet that has no more rows: to the lookup of its upper
    /// bound, or to the end where it has none.
    fn pass(&mut self, tablet: Tablet)
        ensures
            final(self)@ == old(self)@.past(tablet@),
    {
        if tablet.upper_bound.len() == 0 {
            self.state = ScannerState::Finished;
        } else {
            self.lower_bound = tablet.upper_bound;
            self.state = ScannerState::Lookup;
        }
    }

    /// Tells the scan how its wait has ended. A tablet entry opens a scanner
    /// on the tablet; a non-covered range moves the lower bound to its end,
    /// or ends the scan where it has none; a reply yields its batch and,
    /// after the last batch of a tablet, moves the lower bound to the
    /// tablet's end. A failure that a new lookup may cure sends the scan
    /// back to the lookup of its lower bound; any other ends it.
    pub fn poll(&mut self, event: Event) -> (polled: Polled)
        ensures
            final(self)@ == old(self)@.step(event).0,
            polled.says(old(self)@.step(event).1),
    {
        let mut state = ScannerState::Finished;
        core::mem::swap(&mut self.state, &mut state);
        match state {
            ScannerState::Finished => Polled::Finished,
            ScannerState::Lookup => match event {
                Event::Entry(Ok(Entry::Tablet(tablet))) => {
                    let request = self.new_scan_request(tablet.id());
                    let tablet_scan = TabletScan::new(
                        self.projected_schema.duplicate(),
                        tablet.duplicate(),
                        request,
                    );
                    self.state = ScannerState::Scan { tablet, tablet_scan };
                    Polled::Pending
                },
                Event::Entry(Ok(Entry::NonCoveredRange { lower_bound: _, upper_bound })) => {
                    if upper_bound.len() == 0 {
                        Polled::Finished
                    } else {
                        self.lower_bound = upper_bound;
                        self.state = ScannerState::Lookup;
                        Polled::Pending
                    }
                },
                Event::Entry(Err(error)) => Polled::Failed(error),
                Event::Reply(_) => Polled::Failed(
                    Error::InvalidArgument("the scan waits for a lookup".to_owned()),
                ),
            },
            ScannerState::Scan { tablet, tablet_scan } => {
                let mut tablet_scan = tablet_scan;
                if let TabletScan::Finished = tablet_scan {
                    let at_end = tablet.upper_bound.len() == 0;
                    self.pass(tablet);
                    return if at_end {
                        Polled::Finished
                    } else {
                        Polled::Pending
                    };
                }
                match event {
                    Event::Reply(Ok(reply)) => match tablet_scan.poll(Ok(reply)) {
                        Ok(Some(batch)) => {
                            if let TabletScan::Finished = tablet_scan {
                                self.pass(tablet);
                            } else {
                                self.state = ScannerState::Scan { tablet, tablet_scan };
                            }
                            Polled::Batch(batch)
                        },
                        Ok(None) => Polled::Finished,
                        Err(error) => Polled::Failed(error),
                    },
                    Event::Reply(Err(failure)) => {
                        if failure.recoverable {
                            self.state = ScannerState::Lookup;
                            Polled::Pending
                        } else {
                            Polled::Failed(failure.error)
                        }
                    },
                    Event::Entry(_) => Polled::Failed(
                        Error::InvalidArgument("the scan waits for a reply".to_owned()),
                    ),
                }
            },
        }
    }
}

} // verus!
