//! What holds of the scan and of the decoder, whatever the events.

use crate::batch::{decoded, rows_sidecar, RowBatchView};
use crate::endian::{lex_le, lex_lt};
use crate::pb::RowwiseRowBlockPb;
use crate::replica::{Selection, Speculation};
use crate::scanner::{
    projected, Event, Output, ScanReply, ScanView, ScannerStateView, TabletScanView, TargetView,
};
use crate::schema::{widths_sum, SchemaView};
use crate::tablet::{Entry, TabletView};
use vstd::prelude::*;

verus! {

/// Whether the scan's lower bound lies within the tablet it scans, if it
/// scans one.
pub open spec fn within_tablet(scan: ScanView) -> bool {
    scan.state matches ScannerStateView::Scan { tablet, .. } ==> tablet.upper_bound.len() == 0
        || lex_lt(scan.lower_bound, tablet.upper_bound)
}

/// Whether an event is one that an honest meta cache produces for the scan:
/// the entry it resolves contains the scan's lower bound.
pub open spec fn resolves(event: Event, scan: ScanView) -> bool {
    event matches Event::Entry(Ok(entry)) ==> entry@.contains(scan.lower_bound)
}

/// The cursor never falls: whatever the scan is told, its lower bound
/// afterwards is the one before or a later key, as long as every entry it
/// was given contains the lower bound it was looked up for.
pub proof fn lemma_cursor_never_falls(scan: ScanView, event: Event)
    requires
        within_tablet(scan),
        resolves(event, scan),
    ensures
        lex_le(scan.lower_bound, scan.step(event).0.lower_bound),
        within_tablet(scan.step(event).0),
{
}

/// The end is final: a finished scan stays finished and says so, whatever
/// it is told.
pub proof fn lemma_finished_is_final(scan: ScanView, event: Event)
    requires
        scan.state is Finished,
    ensures
        scan.step(event).0 == scan,
        scan.step(event).1 is Finished,
        scan.pending() is Nothing,
{
}

/// A failure is final: after the scan has failed it is finished.
pub proof fn lemma_failure_is_final(scan: ScanView, event: Event)
    requires
        scan.step(event).1 is Passed || scan.step(event).1 is Undecodable || scan.step(event).1
            is Misused,
    ensures
        scan.step(event).0.state is Finished,
{
}

/// A scan ends only past its last tablet: it finishes without failing only
/// once an entry or a drained tablet has no upper bound.
pub proof fn lemma_ends_at_the_last_key(scan: ScanView, event: Event)
    requires
        !(scan.state is Finished),
        scan.step(event).1 is Finished || (scan.step(event).1 is Batch && scan.step(
            event,
        ).0.state is Finished),
    ensures
        match scan.state {
            ScannerStateView::Lookup => event matches Event::Entry(
                Ok(Entry::NonCoveredRange { upper_bound, .. }),
            ) && upper_bound@.len() == 0,
            ScannerStateView::Scan { tablet, .. } => tablet.upper_bound.len() == 0,
            ScannerStateView::Finished => false,
        },
{
}

/// Continuation pinning: a continuation goes over one channel alone, and
/// while a scanner is continued neither its identifier nor its channel
/// changes; the sequence number goes up by one.
pub proof fn lemma_continuation_pinned(scan: TabletScanView, reply: ScanReply)
    requires
        scan is Continue,
    ensures
        scan.rpc() matches Some(call) && call.target == TargetView::Proxy(scan->proxy)
            && call.request.scanner_id == Some(scan->scanner_id) && call.request.call_seq_id
            == Some(scan->call_seq_id) && call.speculation == Speculation::Full,
        scan.after(reply).0 matches TabletScanView::Continue {
            scanner_id,
            call_seq_id,
            proxy,
            ..
        } ==> scanner_id == scan->scanner_id && proxy == scan->proxy && (scan.after(reply).1
            is Some ==> call_seq_id == scan->call_seq_id + 1),
{
}

/// A scanner is pinned to the replica that opened it: the first
/// continuation goes over the channel that answered the opening call, with
/// the identifier that answer carried and the sequence number one.
pub proof fn lemma_first_continuation(scan: TabletScanView, reply: ScanReply)
    requires
        scan is New,
    ensures
        scan.rpc() matches Some(call) && call.target == TargetView::Tablet(scan->tablet)
            && call.speculation == Speculation::Staggered(100) && call.selection
            == Selection::Closest,
        scan.after(reply).0 matches TabletScanView::Continue {
            scanner_id,
            call_seq_id,
            proxy,
            ..
        } ==> Some(scanner_id) == reply.scanner_id() && proxy == reply.proxy@ && call_seq_id == 1,
{
}

/// Decoder sanity: a response without a rows sidecar, with a negative or
/// missing sidecar index, or whose rows do not fill the rows sidecar
/// exactly, does not decode.
pub proof fn lemma_decoder_sanity(
    schema: SchemaView,
    block: RowwiseRowBlockPb,
    sidecars: Seq<Seq<u8>>,
)
    ensures
        block.rows_sidecar is None ==> decoded(schema, block, sidecars) is None,
        block.rows_sidecar matches Some(index) && (index < 0 || index >= sidecars.len())
            ==> decoded(schema, block, sidecars) is None,
        block.indirect_data_sidecar matches Some(index) && (index < 0 || index >= sidecars.len())
            ==> decoded(schema, block, sidecars) is None,
        rows_sidecar(block, sidecars) matches Some(data) && block.rows() * schema.wire_row_len()
            != data.len() ==> decoded(schema, block, sidecars) is None,
        decoded(schema, block, sidecars) matches Some(batch) ==> batch.well_formed()
            && batch.schema == schema && batch.len == block.rows(),
{
}

/// A scan of no columns: its rows take no bytes, so that a batch of it has
/// no data and counts as many rows as its header states.
pub proof fn lemma_empty_projection(
    table: SchemaView,
    block: RowwiseRowBlockPb,
    sidecars: Seq<Seq<u8>>,
)
    ensures
        projected(table, Seq::empty()).wire_row_len() == 0,
        decoded(projected(table, Seq::empty()), block, sidecars) matches Some(batch)
            ==> batch.data.len() == 0 && batch.len == block.rows(),
{
    let schema = projected(table, Seq::empty());
    assert(schema.columns.len() == 0);
    assert(widths_sum(schema.columns) == 0);
    assert(!schema.has_nullable_columns());
}

/// The batches a scan yields when it is told the events one after the
/// other.
pub open spec fn yields(scan: ScanView, events: Seq<Event>) -> Seq<RowBatchView>
    decreases events.len(),
{
    if events.len() == 0 {
        Seq::empty()
    } else {
        let said = match scan.step(events[0]).1 {
            Output::Batch(batch) => seq![batch],
            _ => Seq::empty(),
        };
        said + yields(scan.step(events[0]).0, events.drop_first())
    }
}

/// The scan after it is told the events one after the other.
pub open spec fn after_all(scan: ScanView, events: Seq<Event>) -> ScanView
    decreases events.len(),
{
    if events.len() == 0 {
        scan
    } else {
        after_all(scan.step(events[0]).0, events.drop_first())
    }
}

/// One stop of a scan on its way through the key space: the entry that the
/// meta cache resolves, and, for a tablet, the replies that its server
/// sends until it has no more rows.
pub struct Visit {
    pub entry: Entry,
    pub replies: Seq<ScanReply>,
}

/// Whether the replies are what a server sends for one scanner: at least
/// one, each of which decodes under the schema; all but the last promise
/// more rows, and the first of them carries the scanner's identifier; the
/// last promises no more.
pub open spec fn serves(replies: Seq<ScanReply>, schema: SchemaView) -> bool {
    &&& 0 < replies.len() < u32::MAX
    &&& forall|i: int| 0 <= i < replies.len() ==> (#[trigger] replies[i]).batch(schema) is Some
    &&& forall|i: int|
        0 <= i < replies.len() - 1 ==> (#[trigger] replies[i]).response.more()
    &&& replies.len() > 1 ==> replies[0].scanner_id() is Some
    &&& !replies.last().response.more()
}

/// Whether a stop is one that a cluster makes: a tablet is served, a
/// stretch that no tablet covers has no replies.
pub open spec fn honest(visit: Visit, schema: SchemaView) -> bool {
    match visit.entry {
        Entry::Tablet(_) => serves(visit.replies, schema),
        Entry::NonCoveredRange { .. } => visit.replies.len() == 0,
    }
}

/// The events of the replies, in order.
pub open spec fn reply_events(replies: Seq<ScanReply>) -> Seq<Event> {
    Seq::new(replies.len(), |i: int| Event::Reply(Ok(replies[i])))
}

/// The batches that the replies carry, in order.
pub open spec fn reply_batches(replies: Seq<ScanReply>, schema: SchemaView) -> Seq<RowBatchView> {
    Seq::new(replies.len(), |i: int| replies[i].batch(schema).unwrap())
}

/// The events of one stop: the entry, then the replies.
pub open spec fn visit_events(visit: Visit) -> Seq<Event> {
    seq![Event::Entry(Ok(visit.entry))] + reply_events(visit.replies)
}

/// The events of the stops from stop `i` on.
pub open spec fn plan_events(plan: Seq<Visit>, i: int) -> Seq<Event>
    decreases plan.len() - i,
{
    if i < 0 || i >= plan.len() {
        Seq::empty()
    } else {
        visit_events(plan[i]) + plan_events(plan, i + 1)
    }
}

/// The batches that the servers send from stop `i` on.
pub open spec fn plan_batches(plan: Seq<Visit>, schema: SchemaView, i: int) -> Seq<RowBatchView>
    decreases plan.len() - i,
{
    if i < 0 || i >= plan.len() {
        Seq::empty()
    } else {
        reply_batches(plan[i].replies, schema) + plan_batches(plan, schema, i + 1)
    }
}

/// Whether the stops lead through the key space to its end: each is
/// honest, only the last has no upper bound.
pub open spec fn leads_to_the_end(plan: Seq<Visit>, schema: SchemaView) -> bool {
    &&& plan.len() > 0
    &&& forall|i: int| 0 <= i < plan.len() ==> honest(#[trigger] plan[i], schema)
    &&& forall|i: int|
        0 <= i < plan.len() ==> ((#[trigger] plan[i]).entry@.upper_bound().len() == 0 <==> i
            == plan.len() - 1)
}

/// Telling a scan two runs of events is telling it the first, then the
/// second.
pub proof fn lemma_yields_in_turn(scan: ScanView, first: Seq<Event>, second: Seq<Event>)
    ensures
        yields(scan, first + second) == yields(scan, first) + yields(
            after_all(scan, first),
            second,
        ),
        after_all(scan, first + second) == after_all(after_all(scan, first), second),
    decreases first.len(),
{
    if first.len() == 0 {
        assert(first + second =~= second);
        assert(yields(scan, first) + yields(scan, second) =~= yields(scan, second));
    } else {
        let all = first + second;
        assert(all[0] == first[0]);
        assert(all.drop_first() =~= first.drop_first() + second);
        let next = scan.step(first[0]).0;
        lemma_yields_in_turn(next, first.drop_first(), second);
        let said = match scan.step(first[0]).1 {
            Output::Batch(batch) => seq![batch],
            _ => Seq::empty(),
        };
        assert(said + (yields(next, first.drop_first()) + yields(
            after_all(next, first.drop_first()),
            second,
        )) =~= (said + yields(next, first.drop_first())) + yields(
            after_all(next, first.drop_first()),
            second,
        ));
    }
}

/// Whether a scan is on reply `j` of a tablet: it is about to open the
/// scanner and no reply has come, or it continues the scanner with the
/// sequence number `j`.
pub open spec fn on_reply(scan: ScanView, tablet: TabletView, j: int) -> bool {
    match scan.state {
        ScannerStateView::Scan { tablet: t, tablet_scan } => t == tablet && match tablet_scan {
            TabletScanView::New { projected_schema, .. } => j == 0 && projected_schema
                == scan.projected_schema,
            TabletScanView::Continue { projected_schema, call_seq_id, .. } => j >= 1
                && call_seq_id == j && projected_schema == scan.projected_schema,
            TabletScanView::Finished => false,
        },
        _ => false,
    }
}

/// A tablet is drained reply by reply: from reply `j` on the scan yields
/// the batch of each reply, in order, and then moves past the tablet.
pub proof fn lemma_tablet_drained(
    scan: ScanView,
    tablet: TabletView,
    replies: Seq<ScanReply>,
    j: int,
)
    requires
        0 <= j < replies.len(),
        serves(replies, scan.projected_schema),
        on_reply(scan, tablet, j),
    ensures
        yields(scan, reply_events(replies).skip(j)) == reply_batches(
            replies,
            scan.projected_schema,
        ).skip(j),
        after_all(scan, reply_events(replies).skip(j)) == scan.past(tablet),
    decreases replies.len() - j,
{
    let schema = scan.projected_schema;
    let events = reply_events(replies).skip(j);
    let batches = reply_batches(replies, schema).skip(j);
    let reply = replies[j];
    assert(events[0] == Event::Reply(Ok(reply)));
    assert(reply.batch(schema) is Some);
    let next = scan.step(events[0]).0;
    assert(scan.step(events[0]).1 == Output::Batch(reply.batch(schema).unwrap()));
    assert(batches[0] == reply.batch(schema).unwrap());
    assert(events.drop_first() =~= reply_events(replies).skip(j + 1));
    assert(batches.drop_first() =~= reply_batches(replies, schema).skip(j + 1));
    if j == replies.len() - 1 {
        assert(!reply.response.more());
        assert(next == scan.past(tablet));
        assert(events.drop_first() =~= Seq::<Event>::empty());
        assert(yields(next, events.drop_first()) =~= Seq::<RowBatchView>::empty());
        assert(after_all(next, events.drop_first()) == next);
        assert(yields(scan, events) =~= seq![batches[0]]);
        assert(batches =~= seq![batches[0]]);
    } else {
        assert(reply.response.more());
        assert(on_reply(next, tablet, j + 1));
        lemma_tablet_drained(next, tablet, replies, j + 1);
        assert(next.past(tablet) == scan.past(tablet));
        assert(yields(scan, events) =~= seq![batches[0]] + batches.drop_first());
        assert(batches =~= seq![batches[0]] + batches.drop_first());
    }
}

/// One stop: from the lookup of its lower bound the scan yields the batch
/// of each reply of the stop, in order, and ends where the stop has no
/// upper bound, or else looks up that bound.
pub proof fn lemma_visit(scan: ScanView, visit: Visit)
    requires
        scan.state is Lookup,
        honest(visit, scan.projected_schema),
    ensures
        yields(scan, visit_events(visit)) == reply_batches(visit.replies, scan.projected_schema),
        after_all(scan, visit_events(visit)) == if visit.entry@.upper_bound().len() == 0 {
            scan.finished()
        } else {
            scan.looking_up(visit.entry@.upper_bound())
        },
{
    let schema = scan.projected_schema;
    let events = visit_events(visit);
    let first = seq![Event::Entry(Ok(visit.entry))];
    let rest = reply_events(visit.replies);
    lemma_yields_in_turn(scan, first, rest);
    assert(first.drop_first() =~= Seq::<Event>::empty());
    let next = scan.step(first[0]).0;
    assert(after_all(next, first.drop_first()) == next);
    assert(yields(next, first.drop_first()) =~= Seq::<RowBatchView>::empty());
    assert(after_all(scan, first) == next);
    assert(yields(scan, first) =~= Seq::<RowBatchView>::empty());
    assert(yields(scan, events) =~= yields(next, rest));
    match visit.entry {
        Entry::Tablet(tablet) => {
            assert(next == scan.opening(tablet@));
            assert(rest.skip(0) =~= rest);
            assert(reply_batches(visit.replies, schema).skip(0) =~= reply_batches(
                visit.replies,
                schema,
            ));
            lemma_tablet_drained(next, tablet@, visit.replies, 0);
        },
        Entry::NonCoveredRange { lower_bound, upper_bound } => {
            assert(rest =~= Seq::<Event>::empty());
            assert(reply_batches(visit.replies, schema) =~= Seq::<RowBatchView>::empty());
        },
    }
}

/// From stop `i` on, a scan that looks up its lower bound yields the batch
/// of every reply of every stop, in order, and then is finished.
pub proof fn lemma_complete_from(scan: ScanView, plan: Seq<Visit>, i: int)
    requires
        scan.state is Lookup,
        leads_to_the_end(plan, scan.projected_schema),
        0 <= i < plan.len(),
    ensures
        yields(scan, plan_events(plan, i)) == plan_batches(plan, scan.projected_schema, i),
        after_all(scan, plan_events(plan, i)).state is Finished,
    decreases plan.len() - i,
{
    let schema = scan.projected_schema;
    let visit = plan[i];
    let rest = plan_events(plan, i + 1);
    lemma_visit(scan, visit);
    lemma_yields_in_turn(scan, visit_events(visit), rest);
    let next = after_all(scan, visit_events(visit));
    if i == plan.len() - 1 {
        assert(rest =~= Seq::<Event>::empty());
        assert(plan_batches(plan, schema, i + 1) =~= Seq::<RowBatchView>::empty());
        assert(reply_batches(visit.replies, schema) + Seq::<RowBatchView>::empty()
            =~= reply_batches(visit.replies, schema));
    } else {
        lemma_complete_from(next, plan, i + 1);
    }
}

/// Scan completeness: a scan that is led through the key space to its end,
/// stop by stop, yields every batch that the tablet servers send, each
/// once and in the order of the stops, and then is finished.
pub proof fn lemma_scan_complete(scan: ScanView, plan: Seq<Visit>)
    requires
        scan.state is Lookup,
        leads_to_the_end(plan, scan.projected_schema),
    ensures
        yields(scan, plan_events(plan, 0)) == plan_batches(plan, scan.projected_schema, 0),
        after_all(scan, plan_events(plan, 0)).state is Finished,
{
    lemma_complete_from(scan, plan, 0);
}

} // verus!
