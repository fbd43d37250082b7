use kudu::endian::{bytes_le, bytes_lt};
use kudu::error::Error;
use kudu::meta_cache::{PendingLookups, TableLocations};
use kudu::backoff::Backoff;
use kudu::error::{RpcError, RpcErrorCode};
use kudu::replica::{next_replica, Attempt, Decision, ReplicaRpc, Selection, Speculation};
use kudu::tablet::{Entry, Replica, ReplicaRole, Tablet, TabletId};

fn tablet(id: &str, lower: &[u8], upper: &[u8]) -> Tablet {
    Tablet {
        id: TabletId::parse_bytes(id.as_bytes()).unwrap(),
        lower_bound: lower.to_vec(),
        upper_bound: upper.to_vec(),
        replicas: Vec::new(),
    }
}

fn hole(lower: &[u8], upper: &[u8]) -> Entry {
    Entry::NonCoveredRange { lower_bound: lower.to_vec(), upper_bound: upper.to_vec() }
}

/// Every entry that the locations hold, found by probing keys.
fn entries(locations: &TableLocations, probes: &[&[u8]]) -> Vec<Entry> {
    let mut found: Vec<Entry> = Vec::new();
    for probe in probes {
        if let Some(entry) = locations.entry(probe) {
            if !found.contains(&entry) {
                found.push(entry);
            }
        }
    }
    found
}

#[test]
fn byte_strings_compare_in_dictionary_order() {
    assert!(bytes_lt(b"", b"a"));
    assert!(!bytes_lt(b"", b""));
    assert!(!bytes_lt(b"a", b""));
    assert!(bytes_lt(b"a", b"a\0"));
    assert!(bytes_lt(b"a\0", b"b"));
    assert!(bytes_lt(&[1, 2, 3], &[1, 3]));
    assert!(!bytes_lt(&[1, 3], &[1, 2, 3]));
    assert!(!bytes_lt(&[0xff], &[0x7f]));
    assert!(bytes_le(b"ab", b"ab"));
    assert!(bytes_le(b"ab", b"b"));
    assert!(!bytes_le(b"b", b"ab"));
}

#[test]
fn an_empty_cache_knows_nothing() {
    let locations = TableLocations::new();
    assert_eq!(locations.len(), 0);
    assert!(locations.entry(b"").is_none());
    assert!(locations.entry(b"k").is_none());
}

#[test]
fn a_complete_report_covers_the_key_space_from_the_key_on() {
    let mut locations = TableLocations::new();
    let report = vec![tablet("a", b"b", b"d"), tablet("b", b"f", b"h")];
    assert_eq!(locations.merge(b"", report, true).ok(), Some((0, 0)));
    assert_eq!(locations.len(), 5);
    assert_eq!(locations.entry(b""), Some(hole(b"", b"b")));
    assert_eq!(locations.entry(b"a"), Some(hole(b"", b"b")));
    assert_eq!(locations.entry(b"b"), Some(Entry::Tablet(tablet("a", b"b", b"d"))));
    assert_eq!(locations.entry(b"czz"), Some(Entry::Tablet(tablet("a", b"b", b"d"))));
    assert_eq!(locations.entry(b"d"), Some(hole(b"d", b"f")));
    assert_eq!(locations.entry(b"g"), Some(Entry::Tablet(tablet("b", b"f", b"h"))));
    assert_eq!(locations.entry(b"h"), Some(hole(b"h", b"")));
    assert_eq!(locations.entry(b"zzzz"), Some(hole(b"h", b"")));
}

#[test]
fn a_partial_report_ends_at_its_last_tablet() {
    let mut locations = TableLocations::new();
    let report = vec![tablet("a", b"b", b"d"), tablet("b", b"d", b"h")];
    assert!(locations.merge(b"c", report, false).is_ok());
    assert_eq!(locations.len(), 2);
    assert!(locations.entry(b"a").is_none());
    assert_eq!(locations.entry(b"c"), Some(Entry::Tablet(tablet("a", b"b", b"d"))));
    assert_eq!(locations.entry(b"d"), Some(Entry::Tablet(tablet("b", b"d", b"h"))));
    assert!(locations.entry(b"h").is_none());
}

#[test]
fn an_empty_report_means_nothing_is_covered_from_the_key_on() {
    let mut locations = TableLocations::new();
    assert!(locations.merge(b"m", Vec::new(), true).is_ok());
    assert_eq!(locations.len(), 1);
    assert_eq!(locations.entry(b"m"), Some(hole(b"m", b"")));
    assert!(locations.entry(b"a").is_none());
    let mut other = TableLocations::new();
    assert_eq!(other.merge(b"m", Vec::new(), false).ok(), Some((0, 0)));
    assert_eq!(other.len(), 0);
}

#[test]
fn a_report_out_of_order_is_rejected_and_changes_nothing() {
    let mut locations = TableLocations::new();
    assert!(locations.merge(b"", vec![tablet("a", b"", b"m")], false).is_ok());
    let overlapping = vec![tablet("x", b"a", b"f"), tablet("y", b"e", b"k")];
    assert!(matches!(locations.merge(b"a", overlapping, true), Err(Error::Serialization(_))));
    let backwards = vec![tablet("x", b"f", b"a")];
    assert!(matches!(locations.merge(b"a", backwards, true), Err(Error::Serialization(_))));
    let too_early = vec![tablet("x", b"a", b"c")];
    assert!(matches!(locations.merge(b"d", too_early, true), Err(Error::Serialization(_))));
    let unbounded_first = vec![tablet("x", b"a", b""), tablet("y", b"c", b"d")];
    assert!(matches!(locations.merge(b"a", unbounded_first, true), Err(Error::Serialization(_))));
    assert_eq!(locations.len(), 1);
    assert_eq!(locations.entry(b"c"), Some(Entry::Tablet(tablet("a", b"", b"m"))));
}

#[test]
fn a_newer_report_replaces_what_it_overlaps() {
    let mut locations = TableLocations::new();
    let first = vec![tablet("a", b"", b"d"), tablet("b", b"d", b"h"), tablet("c", b"h", b"p"), tablet("d", b"p", b"")];
    assert!(locations.merge(b"", first, true).is_ok());
    assert_eq!(locations.len(), 4);
    // The tablet from d to h has split in two.
    let second = vec![tablet("b1", b"d", b"f"), tablet("b2", b"f", b"h")];
    assert_eq!(locations.merge(b"d", second, false).ok(), Some((1, 2)));
    assert_eq!(locations.len(), 5);
    assert_eq!(locations.entry(b"a"), Some(Entry::Tablet(tablet("a", b"", b"d"))));
    assert_eq!(locations.entry(b"e"), Some(Entry::Tablet(tablet("b1", b"d", b"f"))));
    assert_eq!(locations.entry(b"g"), Some(Entry::Tablet(tablet("b2", b"f", b"h"))));
    assert_eq!(locations.entry(b"i"), Some(Entry::Tablet(tablet("c", b"h", b"p"))));
    assert_eq!(locations.entry(b"q"), Some(Entry::Tablet(tablet("d", b"p", b""))));
    // A report that straddles two known tablets removes both.
    let third = vec![tablet("z", b"c", b"e")];
    assert_eq!(locations.merge(b"c", third, false).ok(), Some((0, 2)));
    assert_eq!(locations.len(), 4);
    assert!(locations.entry(b"a").is_none());
    assert_eq!(locations.entry(b"d"), Some(Entry::Tablet(tablet("z", b"c", b"e"))));
    assert!(locations.entry(b"e").is_none());
    assert_eq!(locations.entry(b"f"), Some(Entry::Tablet(tablet("b2", b"f", b"h"))));
}

#[test]
fn entries_stay_sorted_and_apart_after_many_reports() {
    let mut locations = TableLocations::new();
    let reports: Vec<(&[u8], Vec<Tablet>, bool)> = vec![
        (b"m", vec![tablet("1", b"k", b"o")], false),
        (b"a", vec![tablet("2", b"b", b"c"), tablet("3", b"e", b"f")], false),
        (b"x", vec![], true),
        (b"n", vec![tablet("4", b"n", b"q"), tablet("5", b"q", b"s")], false),
        (b"", vec![tablet("6", b"", b"a")], false),
        (b"d", vec![tablet("7", b"d", b"l")], false),
    ];
    let probes: Vec<&[u8]> = vec![
        b"", b"a", b"b", b"c", b"d", b"e", b"f", b"g", b"k", b"l", b"m", b"n", b"o", b"p", b"q",
        b"r", b"s", b"t", b"x", b"y", b"zz",
    ];
    for (key, report, complete) in reports {
        assert!(locations.merge(key, report, complete).is_ok());
        let found = entries(&locations, &probes);
        for pair in found.windows(2) {
            let upper = pair[0].upper_bound();
            assert!(!upper.is_empty());
            assert!(upper <= pair[1].lower_bound());
        }
        for entry in &found {
            assert!(entry.upper_bound().is_empty() || entry.lower_bound() < entry.upper_bound());
        }
        for probe in &probes {
            let holders = found.iter().filter(|e| e.contains(probe)).count();
            assert!(holders <= 1);
        }
    }
    assert_eq!(locations.entry(b"e"), Some(Entry::Tablet(tablet("7", b"d", b"l"))));
    assert_eq!(locations.entry(b"y"), Some(hole(b"x", b"")));
}

#[test]
fn a_tablet_that_is_gone_is_forgotten() {
    let mut locations = TableLocations::new();
    let report = vec![tablet("a", b"", b"d"), tablet("b", b"f", b"")];
    assert!(locations.merge(b"", report, true).is_ok());
    assert_eq!(locations.len(), 3);
    let gone = TabletId::parse_bytes(b"a").unwrap();
    assert_eq!(locations.invalidate(&gone), 1);
    assert_eq!(locations.len(), 2);
    assert!(locations.entry(b"a").is_none());
    assert_eq!(locations.entry(b"e"), Some(hole(b"d", b"f")));
    assert_eq!(locations.entry(b"g"), Some(Entry::Tablet(tablet("b", b"f", b""))));
    assert_eq!(locations.invalidate(&gone), 0);
    assert_eq!(locations.len(), 2);
}

#[test]
fn only_the_first_asker_starts_a_lookup() {
    let mut pending = PendingLookups::new();
    let mut started = 0;
    for _ in 0..25 {
        if pending.begin(b"key") {
            started += 1;
        }
    }
    assert_eq!(started, 1);
    assert!(pending.is_under_way(b"key"));
    assert!(!pending.is_under_way(b"other"));
    assert!(pending.begin(b"other"));
    assert!(!pending.begin(b"key"));
    pending.finish(b"key");
    assert!(!pending.is_under_way(b"key"));
    assert!(pending.is_under_way(b"other"));
    assert!(pending.begin(b"key"));
    pending.finish(b"absent");
    assert!(pending.is_under_way(b"key"));
}

fn replica(host: &str, role: ReplicaRole, is_dead: bool) -> Replica {
    Replica { host: host.to_string(), port: 7050, role, is_dead }
}

#[test]
fn the_leader_alone_serves_a_leader_call() {
    let replicas = vec![
        replica("a", ReplicaRole::Follower, false),
        replica("b", ReplicaRole::Leader, false),
        replica("c", ReplicaRole::Learner, false),
    ];
    for draw in 0..5 {
        assert_eq!(next_replica(&replicas, &vec![], Selection::Leader, "a", draw), Some(1));
    }
    assert_eq!(next_replica(&replicas, &vec![false, true], Selection::Leader, "a", 0), None);
    let dead = vec![replica("b", ReplicaRole::Leader, true)];
    assert_eq!(next_replica(&dead, &vec![], Selection::Leader, "b", 0), None);
}

#[test]
fn the_closest_replica_is_one_on_the_same_host_if_any() {
    let replicas = vec![
        replica("a", ReplicaRole::Follower, false),
        replica("b", ReplicaRole::Leader, false),
        replica("c", ReplicaRole::Unknown, false),
        replica("b", ReplicaRole::Follower, false),
    ];
    for draw in 0..7 {
        assert_eq!(next_replica(&replicas, &vec![], Selection::Closest, "b", draw), Some(1));
    }
    let aside = vec![false, true, false, false];
    assert_eq!(next_replica(&replicas, &aside, Selection::Closest, "b", 5), Some(3));
}

#[test]
fn without_a_local_replica_the_draw_decides_among_the_eligible() {
    let replicas = vec![
        replica("a", ReplicaRole::Follower, false),
        replica("b", ReplicaRole::Leader, true),
        replica("c", ReplicaRole::Unknown, false),
        replica("d", ReplicaRole::Follower, false),
    ];
    let aside = vec![false, false, false];
    assert_eq!(next_replica(&replicas, &aside, Selection::Closest, "x", 0), Some(0));
    assert_eq!(next_replica(&replicas, &aside, Selection::Closest, "x", 1), Some(2));
    assert_eq!(next_replica(&replicas, &aside, Selection::Closest, "x", 2), Some(3));
    assert_eq!(next_replica(&replicas, &aside, Selection::Closest, "x", 3), Some(0));
    assert_eq!(next_replica(&replicas, &aside, Selection::Closest, "x", usize::MAX), Some([0, 2, 3][usize::MAX % 3]));
    let all = vec![true, true, true, true];
    assert_eq!(next_replica(&replicas, &all, Selection::Closest, "x", 0), None);
    assert_eq!(next_replica(&Vec::new(), &all, Selection::Closest, "x", 0), None);
}

fn busy() -> Error {
    Error::Rpc(RpcError {
        code: RpcErrorCode::ErrorServerTooBusy,
        message: "busy".to_string(),
        unsupported_feature_flags: Vec::new(),
    })
}

fn unauthorized() -> Error {
    Error::Rpc(RpcError {
        code: RpcErrorCode::FatalUnauthorized,
        message: "no".to_string(),
        unsupported_feature_flags: Vec::new(),
    })
}

fn three_replicas() -> Vec<Replica> {
    vec![
        replica("a", ReplicaRole::Follower, false),
        replica("b", ReplicaRole::Leader, false),
        replica("c", ReplicaRole::Follower, false),
    ]
}

#[test]
fn a_busy_replica_is_set_aside_and_the_next_tried_after_a_backoff() {
    let replicas = three_replicas();
    let mut rpc = ReplicaRpc::new(3, Speculation::Sequential, Selection::Closest, Backoff::default(), 10_000);
    assert_eq!(rpc.next_attempt(&replicas, "b", 0), Some(1));
    match rpc.on_attempt(1, Attempt::Failed(busy()), 1_000, 1000) {
        Decision::RetryAfter { wake_ms } => assert_eq!(wake_ms, 1_010),
        _ => panic!("a busy server is tried again"),
    }
    assert!(!rpc.is_decided());
    assert_eq!(rpc.next_attempt(&replicas, "b", 0), Some(0));
    let io = Error::Io(std::io::Error::from(std::io::ErrorKind::ConnectionRefused));
    match rpc.on_attempt(0, Attempt::Failed(io), 1_010, 1500) {
        Decision::RetryAfter { wake_ms } => assert_eq!(wake_ms, 1_010 + 30),
        _ => panic!("a failed connection is tried again"),
    }
    assert_eq!(rpc.next_attempt(&replicas, "b", 7), Some(2));
    match rpc.on_attempt(2, Attempt::Success, 1_050, 1000) {
        Decision::Resolve { replica } => assert_eq!(replica, 2),
        _ => panic!("an answer decides the call"),
    }
    assert!(rpc.is_decided());
    assert_eq!(rpc.next_attempt(&replicas, "b", 0), None);
}

#[test]
fn the_first_answer_wins_and_a_late_one_is_ignored() {
    let mut rpc = ReplicaRpc::new(2, Speculation::Staggered(100), Selection::Closest, Backoff::default(), 10_000);
    assert!(!rpc.speculates(99));
    assert!(rpc.speculates(100));
    assert!(matches!(rpc.on_attempt(1, Attempt::Success, 150, 1000), Decision::Resolve { replica: 1 }));
    assert!(matches!(rpc.on_attempt(0, Attempt::Success, 250, 1000), Decision::Ignore));
    assert!(matches!(rpc.on_attempt(0, Attempt::Failed(unauthorized()), 250, 1000), Decision::Ignore));
    assert!(!rpc.speculates(500));
    let full = ReplicaRpc::new(2, Speculation::Full, Selection::Closest, Backoff::default(), 10_000);
    assert!(!full.speculates(1_000));
}

#[test]
fn a_fatal_error_fails_the_call_at_once() {
    let mut rpc = ReplicaRpc::new(3, Speculation::Sequential, Selection::Closest, Backoff::default(), 10_000);
    assert!(matches!(
        rpc.on_attempt(0, Attempt::Failed(unauthorized()), 0, 1000),
        Decision::Fail(Error::Rpc(_))
    ));
    assert!(rpc.is_decided());
    let mut rpc = ReplicaRpc::new(3, Speculation::Sequential, Selection::Closest, Backoff::default(), 10_000);
    assert!(matches!(
        rpc.on_attempt(0, Attempt::Failed(Error::Serialization("x".to_string())), 0, 1000),
        Decision::Fail(Error::Serialization(_))
    ));
    let mut rpc = ReplicaRpc::new(3, Speculation::Sequential, Selection::Closest, Backoff::default(), 10_000);
    assert!(matches!(rpc.on_attempt(0, Attempt::Failed(Error::TimedOut), 0, 1000), Decision::TimedOut));
    assert!(rpc.is_decided());
}

#[test]
fn a_retry_past_the_deadline_times_out() {
    let mut rpc = ReplicaRpc::new(3, Speculation::Sequential, Selection::Closest, Backoff::new(100, 1000), 1_049);
    assert!(matches!(rpc.on_attempt(0, Attempt::Failed(busy()), 1_000, 500), Decision::TimedOut));
    assert!(rpc.is_decided());
    let mut rpc = ReplicaRpc::new(3, Speculation::Sequential, Selection::Closest, Backoff::new(100, 1000), 1_050);
    assert!(matches!(
        rpc.on_attempt(0, Attempt::Failed(busy()), 1_000, 500),
        Decision::RetryAfter { wake_ms: 1_050 }
    ));
}

#[test]
fn a_moved_leader_is_looked_up_again_and_a_gone_tablet_is_dropped() {
    let replicas = three_replicas();
    let mut rpc = ReplicaRpc::new(3, Speculation::Sequential, Selection::Leader, Backoff::default(), 10_000);
    assert_eq!(rpc.next_attempt(&replicas, "a", 3), Some(1));
    assert!(matches!(rpc.on_attempt(1, Attempt::NotLeader(busy()), 0, 1000), Decision::Refresh));
    assert!(!rpc.is_decided());
    assert_eq!(rpc.next_attempt(&replicas, "a", 3), Some(1));
    assert!(matches!(
        rpc.on_attempt(1, Attempt::TabletGone(Error::TimedOut), 0, 1000),
        Decision::DropTablet(Error::TimedOut)
    ));
    assert!(rpc.is_decided());
    let mut closest = ReplicaRpc::new(3, Speculation::Sequential, Selection::Closest, Backoff::default(), 10_000);
    assert!(matches!(
        closest.on_attempt(7, Attempt::NotLeader(busy()), 5, 1000),
        Decision::RetryAfter { wake_ms: 15 }
    ));
    assert_eq!(closest.next_attempt(&replicas, "a", 0), Some(0));
}

#[test]
fn an_unanswered_attempt_moves_on_at_once_and_the_deadline_ends_the_call() {
    let replicas = three_replicas();
    let mut rpc = ReplicaRpc::new(3, Speculation::Full, Selection::Closest, Backoff::default(), 1_000);
    assert_eq!(rpc.next_attempt(&replicas, "c", 0), Some(2));
    assert!(matches!(rpc.on_attempt(2, Attempt::Unanswered, 400, 1000), Decision::RetryAfter { wake_ms: 400 }));
    assert_eq!(rpc.next_attempt(&replicas, "c", 0), Some(0));
    assert!(matches!(rpc.on_time(1_000), Decision::Ignore));
    assert!(!rpc.is_decided());
    // The backoff has not been touched: the first delay is still the base.
    assert!(matches!(rpc.on_attempt(0, Attempt::Failed(busy()), 500, 1000), Decision::RetryAfter { wake_ms: 510 }));
    assert!(matches!(rpc.on_time(1_001), Decision::TimedOut));
    assert!(rpc.is_decided());
    assert!(matches!(rpc.on_time(2_000), Decision::Ignore));
    assert!(matches!(rpc.on_attempt(1, Attempt::Success, 2_000, 1000), Decision::Ignore));
    let mut late = ReplicaRpc::new(3, Speculation::Full, Selection::Closest, Backoff::default(), 1_000);
    assert!(matches!(late.on_attempt(2, Attempt::Unanswered, 1_001, 1000), Decision::TimedOut));
}
