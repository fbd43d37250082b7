use bytes::BytesMut;
use kudu::batch::RowBatch;
use kudu::error::Error;
use kudu::key::murmur2_64;
use kudu::pb::{RowwiseRowBlockPb, ScanResponsePb};
use kudu::replica::{Selection, Speculation};
use kudu::row::Value;
use kudu::scanner::{
    Event, Pending, Polled, Scan, ScanBuilder, ScanCall, ScanFailure, ScanReply, TabletScan,
    Target,
};
use kudu::schema::{ColumnSchema, DataType, Schema};
use kudu::tablet::{Entry, Proxy, Replica, ReplicaRole, ScannerId, Tablet, TabletId};

fn table_schema() -> Schema {
    Schema::new(
        vec![
            ColumnSchema::new("key", DataType::Int32, false),
            ColumnSchema::new("val", DataType::Int32, true),
        ],
        1,
    )
    .unwrap()
}

/// One tablet of a pretend table: its bounds and the rows it holds.
struct FakeTablet {
    tablet: Tablet,
    rows: Vec<(i32, i32)>,
    /// How many rows of the open scanner have been sent.
    sent: usize,
    /// The sequence number the scanner expects next.
    next_seq: u32,
}

fn bucket_bound(bucket: u32) -> Vec<u8> {
    bucket.to_be_bytes().to_vec()
}

/// A table of `partitions` hash partitions with the keys `0..num_rows`,
/// each with a value equal to its key.
fn fake_table(partitions: u32, num_rows: i32) -> Vec<FakeTablet> {
    let mut tablets = Vec::new();
    for bucket in 0..partitions {
        let lower = if bucket == 0 { Vec::new() } else { bucket_bound(bucket) };
        let upper = if bucket + 1 == partitions { Vec::new() } else { bucket_bound(bucket + 1) };
        tablets.push(FakeTablet {
            tablet: Tablet {
                id: TabletId::parse_bytes(format!("tablet-{}", bucket).as_bytes()).unwrap(),
                lower_bound: lower,
                upper_bound: upper,
                replicas: vec![Replica {
                    host: format!("ts-{}", bucket),
                    port: 7050,
                    role: ReplicaRole::Leader,
                    is_dead: false,
                }],
            },
            rows: Vec::new(),
            sent: 0,
            next_seq: 0,
        });
    }
    for key in 0..num_rows {
        let bucket = (murmur2_64(&key.to_be_bytes(), 0) % partitions as u64) as usize;
        tablets[bucket].rows.push((key, key));
    }
    tablets
}

/// What the pretend meta cache answers for a key.
fn lookup(tablets: &[FakeTablet], key: &[u8]) -> Entry {
    for t in tablets {
        let above_lower = t.tablet.lower_bound.as_slice() <= key;
        let below_upper = t.tablet.upper_bound.is_empty() || key < t.tablet.upper_bound.as_slice();
        if above_lower && below_upper {
            return Entry::Tablet(t.tablet.clone());
        }
    }
    panic!("the pretend table covers every key");
}

/// What the pretend tablet server answers to a call: at most `batch_rows`
/// rows of the projected columns.
fn serve(tablets: &mut [FakeTablet], call: &ScanCall, columns: &[String], batch_rows: usize) -> ScanReply {
    let index = match &call.target {
        Target::Tablet(tablet) => {
            let request = call.request.new_scan_request.as_ref().expect("an opening request");
            assert_eq!(request.tablet_id, tablet.id.to_bytes());
            assert_eq!(request.read_mode, kudu::pb::ReadMode::ReadLatest);
            assert!(request.start_primary_key.is_none() && request.stop_primary_key.is_none());
            assert_eq!(request.projected_columns.len(), columns.len());
            assert!(call.request.scanner_id.is_none());
            assert_eq!(call.speculation, Speculation::Staggered(100));
            assert_eq!(call.selection, Selection::Closest);
            let index = tablets.iter().position(|t| t.tablet.id == tablet.id).unwrap();
            tablets[index].sent = 0;
            tablets[index].next_seq = 1;
            index
        }
        Target::Proxy(proxy) => {
            let index = tablets.iter().position(|t| t.tablet.replicas[0].host == proxy.host).unwrap();
            let scanner = call.request.scanner_id.as_ref().expect("a scanner id");
            assert_eq!(scanner, &format!("scanner-{}", index).into_bytes());
            assert_eq!(call.request.call_seq_id, Some(tablets[index].next_seq));
            assert_eq!(call.speculation, Speculation::Full);
            tablets[index].next_seq += 1;
            index
        }
    };
    assert_eq!(call.timeout_secs, 60);
    let t = &mut tablets[index];
    let end = usize::min(t.sent + batch_rows, t.rows.len());
    let mut data = BytesMut::new();
    for &(key, val) in &t.rows[t.sent..end] {
        let mut any_nullable = false;
        for column in columns {
            if column == "key" {
                data.extend_from_slice(&key.to_le_bytes());
            } else {
                data.extend_from_slice(&val.to_le_bytes());
                any_nullable = true;
            }
        }
        if any_nullable {
            data.extend_from_slice(&[0]);
        }
    }
    let num_rows = (end - t.sent) as i32;
    t.sent = end;
    ScanReply {
        proxy: Proxy { host: t.tablet.replicas[0].host.clone(), port: 7050 },
        response: ScanResponsePb {
            scanner_id: Some(format!("scanner-{}", index).into_bytes()),
            has_more_results: Some(t.sent < t.rows.len()),
            data: Some(RowwiseRowBlockPb {
                num_rows: Some(num_rows),
                rows_sidecar: Some(0),
                indirect_data_sidecar: None,
            }),
        },
        sidecars: vec![data],
    }
}

/// Runs a scan to its end against the pretend table.
fn collect(mut scan: Scan, tablets: &mut [FakeTablet], batch_rows: usize) -> Vec<RowBatch> {
    let columns: Vec<String> = (0..scan.projected_schema().num_columns())
        .map(|i| scan.projected_schema().column(i).name().to_string())
        .collect();
    let mut batches = Vec::new();
    let mut steps = 0;
    loop {
        steps += 1;
        assert!(steps < 10_000, "the scan does not end");
        let event = match scan.pending() {
            Pending::Lookup(key) => Event::Entry(Ok(lookup(tablets, &key))),
            Pending::Call(call) => Event::Reply(Ok(serve(tablets, &call, &columns, batch_rows))),
            Pending::Nothing => return batches,
        };
        match scan.poll(event) {
            Polled::Batch(batch) => batches.push(batch),
            Polled::Pending => {}
            Polled::Finished => return batches,
            Polled::Failed(error) => panic!("the scan failed: {:?}", error),
        }
    }
}

#[test]
fn count() {
    let schema = table_schema();
    let num_rows = 100;
    let mut tablets = fake_table(4, num_rows);

    let scan: Scan = ScanBuilder::new(schema.clone()).projected_columns(Vec::new()).unwrap().build();

    let batches: Vec<RowBatch> = collect(scan, &mut tablets, 7);

    assert!(batches.len() > 4);
    for batch in &batches {
        assert_eq!(batch.row_len(), 0);
    }
    assert_eq!(num_rows as usize, batches.into_iter().map(|batch| batch.num_rows()).sum());
}

#[test]
fn select() {
    let schema = table_schema();
    let num_rows = 10;
    let mut tablets = fake_table(4, num_rows);

    let scan: Scan = ScanBuilder::new(schema.clone()).build();

    let batches = collect(scan, &mut tablets, 2);

    let mut rows = Vec::new();
    for batch in &batches {
        let mut iter = batch.into_iter();
        while let Some(row) = iter.next() {
            let key = match row.get(0).unwrap() {
                Some(Value::Int32(key)) => key,
                other => panic!("unexpected key {:?}", other),
            };
            let val = match row.get(1).unwrap() {
                Some(Value::Int32(val)) => val,
                other => panic!("unexpected val {:?}", other),
            };
            rows.push((key, val));
        }
    }

    rows.sort();

    let expected = (0..num_rows).map(|i| (i, i)).collect::<Vec<_>>();

    assert_eq!(rows, expected);
}

#[test]
fn scan_of_a_hundred_rows_returns_each_once() {
    let mut tablets = fake_table(4, 100);
    let scan = ScanBuilder::new(table_schema()).build();
    let batches = collect(scan, &mut tablets, 7);
    assert!(batches.len() > 4);
    let mut rows = Vec::new();
    for batch in &batches {
        assert_eq!(batch.row_len(), 9);
        for i in 0..batch.num_rows() {
            match (batch.value(i, 0).unwrap(), batch.value(i, 1).unwrap()) {
                (Some(Value::Int32(key)), Some(Value::Int32(val))) => rows.push((key, val)),
                other => panic!("unexpected row {:?}", other),
            }
        }
    }
    rows.sort();
    assert_eq!(rows, (0..100).map(|i| (i, i)).collect::<Vec<_>>());
}

#[test]
fn builder_projects_all_columns_by_default() {
    let scan = ScanBuilder::new(table_schema()).build();
    assert_eq!(scan.projected_schema().num_columns(), 2);
    assert_eq!(scan.projected_schema().column(0).name(), "key");
    assert_eq!(scan.projected_schema().column(1).name(), "val");
    assert_eq!(scan.projected_schema().num_primary_key_columns(), 0);
}

#[test]
fn builder_rejects_an_index_out_of_range() {
    let picked = ScanBuilder::new(table_schema()).projected_columns(vec![0, 2]);
    assert!(matches!(picked, Err(Error::InvalidArgument(_))));
    let picked = ScanBuilder::new(table_schema()).projected_columns(vec![1, 1, 0]);
    let scan = picked.ok().unwrap().build();
    assert_eq!(scan.projected_schema().num_columns(), 3);
    assert_eq!(scan.projected_schema().column(0).name(), "val");
    assert_eq!(scan.projected_schema().column(2).name(), "key");
}

#[test]
fn builder_resolves_names_and_rejects_unknown_ones() {
    let picked = ScanBuilder::new(table_schema()).projected_column_names(vec!["val", "key"]);
    let scan = picked.ok().unwrap().build();
    assert_eq!(scan.projected_schema().column(0).name(), "val");
    assert_eq!(scan.projected_schema().column(1).name(), "key");
    let picked = ScanBuilder::new(table_schema()).projected_column_names(vec!["key", "nope"]);
    match picked {
        Err(Error::InvalidArgument(message)) => assert_eq!(message, "unknown column nope"),
        _ => panic!("an unknown column must be rejected"),
    }
}

fn one_tablet(lower: &[u8], upper: &[u8]) -> Tablet {
    Tablet {
        id: TabletId::parse_bytes(b"t1").unwrap(),
        lower_bound: lower.to_vec(),
        upper_bound: upper.to_vec(),
        replicas: Vec::new(),
    }
}

fn empty_reply(host: &str, more: bool, scanner: Option<&[u8]>) -> ScanReply {
    ScanReply {
        proxy: Proxy { host: host.to_string(), port: 1 },
        response: ScanResponsePb {
            scanner_id: scanner.map(|s| s.to_vec()),
            has_more_results: Some(more),
            data: Some(RowwiseRowBlockPb {
                num_rows: Some(0),
                rows_sidecar: Some(0),
                indirect_data_sidecar: None,
            }),
        },
        sidecars: vec![BytesMut::new()],
    }
}

#[test]
fn a_new_scan_waits_for_the_lookup_of_the_least_key() {
    let scan = ScanBuilder::new(table_schema()).build();
    match scan.pending() {
        Pending::Lookup(key) => assert!(key.is_empty()),
        _ => panic!("a new scan looks up the least key"),
    }
}

#[test]
fn a_non_covered_range_moves_the_lower_bound_without_a_call() {
    let mut scan = ScanBuilder::new(table_schema()).build();
    let polled = scan.poll(Event::Entry(Ok(Entry::NonCoveredRange {
        lower_bound: Vec::new(),
        upper_bound: vec![5],
    })));
    assert!(matches!(polled, Polled::Pending));
    match scan.pending() {
        Pending::Lookup(key) => assert_eq!(key, vec![5]),
        _ => panic!("the scan looks up the end of the range"),
    }
    let polled = scan.poll(Event::Entry(Ok(Entry::NonCoveredRange {
        lower_bound: vec![5],
        upper_bound: Vec::new(),
    })));
    assert!(matches!(polled, Polled::Finished));
    assert!(matches!(scan.pending(), Pending::Nothing));
    assert!(matches!(scan.poll(Event::Entry(Err(Error::TimedOut))), Polled::Finished));
}

#[test]
fn the_last_batch_of_a_tablet_moves_on_to_its_upper_bound() {
    let mut scan = ScanBuilder::new(table_schema()).build();
    assert!(matches!(
        scan.poll(Event::Entry(Ok(Entry::Tablet(one_tablet(b"", b"m"))))),
        Polled::Pending
    ));
    assert!(matches!(scan.pending(), Pending::Call(_)));
    let polled = scan.poll(Event::Reply(Ok(empty_reply("a", false, None))));
    match polled {
        Polled::Batch(batch) => assert_eq!(batch.num_rows(), 0),
        _ => panic!("the reply yields a batch"),
    }
    match scan.pending() {
        Pending::Lookup(key) => assert_eq!(key, b"m".to_vec()),
        _ => panic!("the scan looks up the tablet's upper bound"),
    }
}

#[test]
fn the_last_batch_of_the_last_tablet_ends_the_scan() {
    let mut scan = ScanBuilder::new(table_schema()).build();
    scan.poll(Event::Entry(Ok(Entry::Tablet(one_tablet(b"", b"")))));
    assert!(matches!(scan.poll(Event::Reply(Ok(empty_reply("a", false, None)))), Polled::Batch(_)));
    assert!(matches!(scan.pending(), Pending::Nothing));
    assert!(matches!(scan.poll(Event::Reply(Ok(empty_reply("a", false, None)))), Polled::Finished));
}

#[test]
fn continuations_are_pinned_and_count_up_from_one() {
    let mut scan = ScanBuilder::new(table_schema()).build();
    scan.poll(Event::Entry(Ok(Entry::Tablet(one_tablet(b"", b"")))));
    assert!(matches!(
        scan.poll(Event::Reply(Ok(empty_reply("first", true, Some(b"abc"))))),
        Polled::Batch(_)
    ));
    for seq in 1..4u32 {
        match scan.pending() {
            Pending::Call(call) => {
                assert_eq!(call.target, Target::Proxy(Proxy { host: "first".to_string(), port: 1 }));
                assert_eq!(call.request.scanner_id, Some(b"abc".to_vec()));
                assert_eq!(call.request.call_seq_id, Some(seq));
                assert!(call.request.new_scan_request.is_none());
                assert_eq!(call.speculation, Speculation::Full);
            }
            _ => panic!("the scan continues its scanner"),
        }
        // Even a reply that claims another channel does not move the scanner.
        assert!(matches!(
            scan.poll(Event::Reply(Ok(empty_reply("other", true, Some(b"xyz"))))),
            Polled::Batch(_)
        ));
    }
}

#[test]
fn a_recoverable_failure_returns_to_the_lookup() {
    let mut scan = ScanBuilder::new(table_schema()).build();
    scan.poll(Event::Entry(Ok(Entry::NonCoveredRange { lower_bound: vec![], upper_bound: vec![3] })));
    scan.poll(Event::Entry(Ok(Entry::Tablet(one_tablet(&[3], &[9])))));
    let polled = scan.poll(Event::Reply(Err(ScanFailure {
        error: Error::TimedOut,
        recoverable: true,
    })));
    assert!(matches!(polled, Polled::Pending));
    match scan.pending() {
        Pending::Lookup(key) => assert_eq!(key, vec![3]),
        _ => panic!("the scan looks its lower bound up again"),
    }
}

#[test]
fn any_other_failure_ends_the_scan() {
    let mut scan = ScanBuilder::new(table_schema()).build();
    scan.poll(Event::Entry(Ok(Entry::Tablet(one_tablet(b"", b"")))));
    let polled = scan.poll(Event::Reply(Err(ScanFailure {
        error: Error::TimedOut,
        recoverable: false,
    })));
    assert!(matches!(polled, Polled::Failed(Error::TimedOut)));
    assert!(matches!(scan.pending(), Pending::Nothing));

    let mut scan = ScanBuilder::new(table_schema()).build();
    let polled = scan.poll(Event::Entry(Err(Error::Negotiation("no".to_string()))));
    assert!(matches!(polled, Polled::Failed(Error::Negotiation(_))));
    assert!(matches!(scan.pending(), Pending::Nothing));
}

#[test]
fn an_event_that_was_not_waited_for_is_an_invalid_argument() {
    let mut scan = ScanBuilder::new(table_schema()).build();
    let polled = scan.poll(Event::Reply(Ok(empty_reply("a", false, None))));
    assert!(matches!(polled, Polled::Failed(Error::InvalidArgument(_))));

    let mut scan = ScanBuilder::new(table_schema()).build();
    scan.poll(Event::Entry(Ok(Entry::Tablet(one_tablet(b"", b"")))));
    let polled = scan.poll(Event::Entry(Ok(Entry::Tablet(one_tablet(b"", b"")))));
    assert!(matches!(polled, Polled::Failed(Error::InvalidArgument(_))));
}

#[test]
fn a_reply_that_does_not_decode_ends_the_scan() {
    let mut scan = ScanBuilder::new(table_schema()).build();
    scan.poll(Event::Entry(Ok(Entry::Tablet(one_tablet(b"", b"")))));
    let mut reply = empty_reply("a", false, None);
    reply.response.data = Some(RowwiseRowBlockPb {
        num_rows: Some(1),
        rows_sidecar: Some(0),
        indirect_data_sidecar: None,
    });
    assert!(matches!(scan.poll(Event::Reply(Ok(reply))), Polled::Failed(Error::Serialization(_))));
    assert!(matches!(scan.pending(), Pending::Nothing));
}

#[test]
fn tablet_scan_needs_a_scanner_id_to_continue() {
    let schema = Schema::new(Vec::new(), 0).unwrap();
    let request = kudu::pb::NewScanRequestPb {
        tablet_id: b"t1".to_vec(),
        projected_columns: Vec::new(),
        start_primary_key: None,
        stop_primary_key: None,
        read_mode: kudu::pb::ReadMode::ReadLatest,
    };
    let mut scan = TabletScan::new(schema, one_tablet(b"", b""), request);
    let polled = scan.poll(Ok(empty_reply("a", true, None)));
    assert!(matches!(polled, Err(Error::Serialization(_))));
    assert!(matches!(scan, TabletScan::New { .. }));
    let polled = scan.poll(Ok(empty_reply("a", true, Some(&[0xff]))));
    assert!(matches!(polled, Err(Error::Serialization(_))));
    let polled = scan.poll(Err(Error::TimedOut));
    assert!(matches!(polled, Err(Error::TimedOut)));
    assert!(matches!(scan, TabletScan::New { .. }));
    let polled = scan.poll(Ok(empty_reply("a", true, Some(b"id"))));
    assert!(matches!(polled, Ok(Some(_))));
    match &scan {
        TabletScan::Continue { call_seq_id, proxy, .. } => {
            assert_eq!(*call_seq_id, 1);
            assert_eq!(proxy.host, "a");
        }
        _ => panic!("the scan continues"),
    }
}

#[test]
fn tablet_scan_stops_when_the_sequence_is_used_up() {
    let schema = Schema::new(Vec::new(), 0).unwrap();
    let mut scan = TabletScan::cont(
        schema,
        ScannerId::parse_bytes(b"id").unwrap(),
        u32::MAX,
        Proxy { host: "a".to_string(), port: 1 },
    );
    let polled = scan.poll(Ok(empty_reply("a", true, Some(b"id"))));
    assert!(matches!(polled, Err(Error::Serialization(_))));
    let polled = scan.poll(Ok(empty_reply("a", false, Some(b"id"))));
    assert!(matches!(polled, Ok(Some(_))));
    assert!(matches!(scan, TabletScan::Finished));
    assert!(scan.rpc().is_none());
    assert!(matches!(scan.poll(Err(Error::TimedOut)), Ok(None)));
}
