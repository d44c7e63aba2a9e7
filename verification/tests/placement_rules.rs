//! The rules of placement, on values worked out by hand.

use session_placement::time::MAX_DURATION_NANOS;
use session_placement::Duration;
use session_placement::Instant;
use session_placement::PlacementError;
use session_placement::SessionLease;
use session_placement::TokenPlacement;

const IDS_3: &str = "{\"prompt_ids\":[1,2,3]}";
const IDS_5: &str = "{\"prompt_ids\":[1,2,3,4,5]}";
const ABORT: &str = "{\"request_id\":\"r\"}";

fn tokens_on(placement: &TokenPlacement, worker: &str) -> Option<u64> {
    placement.worker_tokens().get(worker).copied()
}

fn secs(n: u64) -> Instant {
    Instant {
        nanos: Duration::from_secs(n).nanos,
    }
}

fn fresh() -> TokenPlacement {
    TokenPlacement::new(Duration::from_secs(10))
}

#[test]
fn ties_go_to_fewer_sessions_and_then_to_the_earliest() {
    let mut p = fresh();
    // Nothing is loaded: the earliest.
    assert_eq!(p.place_at("e", Some("{\"prompt_ids\":[]}"), &["a", "b"], secs(0)), "a");
    // Both carry no tokens, "a" one session more.
    assert_eq!(p.place_at("f", Some(IDS_3), &["a", "b"], secs(0)), "b");
    // "a" carries fewer tokens, whatever the order.
    assert_eq!(p.place_at("g", Some(IDS_3), &["b", "a"], secs(0)), "a");
    // As many tokens on both, and "b" one session fewer.
    assert_eq!(p.place_at("h", Some(IDS_3), &["a", "b"], secs(0)), "b");
    assert_eq!(tokens_on(&p, "a"), Some(3));
    assert_eq!(tokens_on(&p, "b"), Some(6));
}

#[test]
fn an_estimate_is_a_quarter_of_the_bytes_and_only_grows() {
    let mut p = fresh();
    assert_eq!(p.place_at("s", Some("0123456789"), &["a"], secs(0)), "a");
    assert_eq!(tokens_on(&p, "a"), Some(2));
    p.place_at("s", Some("0123"), &["a"], secs(0));
    assert_eq!(tokens_on(&p, "a"), Some(2));
    // Six characters of three bytes each.
    p.place_at("s", Some("\u{65e5}\u{65e5}\u{65e5}\u{65e5}\u{65e5}\u{65e5}"), &["a"], secs(0));
    assert_eq!(tokens_on(&p, "a"), Some(4));
    p.place_at("s", None, &["a"], secs(0));
    assert_eq!(tokens_on(&p, "a"), Some(4));
    // A count is taken as it is, also when it is less.
    p.place_at("s", Some(IDS_3), &["a"], secs(0));
    assert_eq!(tokens_on(&p, "a"), Some(3));
}

#[test]
fn workers_never_used_have_no_entry_and_left_ones_keep_theirs() {
    let mut p = fresh();
    assert_eq!(tokens_on(&p, "a"), None);
    assert_eq!(p.worker_tokens().len(), 0);
    p.place_at("s", Some(IDS_3), &["a"], secs(0));
    p.place_at("s", Some(IDS_3), &["b"], secs(0));
    assert_eq!(tokens_on(&p, "a"), Some(0));
    assert_eq!(tokens_on(&p, "b"), Some(3));
    assert_eq!(p.worker_tokens().len(), 2);
    let map = p.worker_tokens();
    let mut names: Vec<String> = (0..map.len()).map(|i: usize| map.key_at(i).to_string()).collect();
    names.sort();
    assert_eq!(names, vec!["a".to_string(), "b".to_string()]);
}

#[test]
fn a_session_counts_up_to_the_idle_period_and_is_remembered_for_four() {
    for (gap, counts, remembered) in [
        (10, true, true),
        (11, false, true),
        (40, false, true),
        (41, false, false),
    ] {
        let mut p = fresh();
        p.place_at("s", Some(IDS_3), &["a"], secs(0));
        p.place_at("t", Some(IDS_5), &["b"], secs(gap));
        let expected: u64 = if counts { 3 } else { 0 };
        assert_eq!(tokens_on(&p, "a"), Some(expected));
        assert_eq!(p.lease_at("s", secs(gap)).is_some(), remembered);
    }
}

#[test]
fn sweeps_are_a_second_apart() {
    let mut p = TokenPlacement::new(Duration { nanos: 0 });
    p.place_at("s", Some(IDS_3), &["a"], Instant { nanos: 10 });
    // A nanosecond short of a second after the start.
    p.place_at("t", Some(IDS_5), &["b"], Instant { nanos: 999_999_999 });
    assert_eq!(tokens_on(&p, "a"), Some(3));
    p.place_at("t", Some(IDS_5), &["b"], Instant { nanos: 1_000_000_000 });
    assert_eq!(tokens_on(&p, "a"), Some(0));
    assert!(p.lease_at("s", Instant { nanos: 1_000_000_000 }).is_none());
}

#[test]
fn a_moment_before_the_last_use_is_no_idle_time() {
    let mut p = fresh();
    p.place_at("s", Some(IDS_3), &["a"], secs(100));
    p.place_at("t", Some(IDS_5), &["b"], secs(50));
    assert_eq!(tokens_on(&p, "a"), Some(3));
}

#[test]
fn a_lease_counts_again_and_its_settle_starts_the_idle_clock() {
    let mut p = fresh();
    p.place_at("s", Some(IDS_3), &["a"], secs(0));
    p.place_at("t", Some(IDS_5), &["b"], secs(20));
    assert_eq!(tokens_on(&p, "a"), Some(0));
    let lease: SessionLease = p.lease_at("s", secs(21)).unwrap();
    assert_eq!(lease.key(), "s");
    assert_eq!(tokens_on(&p, "a"), Some(3));
    // In flight for a thousand seconds.
    p.place_at("t", Some(IDS_5), &["b"], secs(1021));
    assert_eq!(tokens_on(&p, "a"), Some(3));
    p.settle_at(lease.key(), secs(1030));
    p.place_at("t", Some(IDS_5), &["b"], secs(1040));
    assert_eq!(tokens_on(&p, "a"), Some(3));
    p.place_at("t", Some(IDS_5), &["b"], secs(1041));
    assert_eq!(tokens_on(&p, "a"), Some(0));
}

#[test]
fn a_session_stays_through_flight_settle_and_pause() {
    let mut p = fresh();
    assert_eq!(p.place_at("s", Some(IDS_5), &["a", "b"], secs(0)), "a");
    let lease: SessionLease = p.lease_at("s", secs(0)).unwrap();
    p.place_at("t", Some(IDS_3), &["b"], secs(3600));
    p.settle_at(lease.key(), secs(3601));
    // The other worker is lighter and listed first.
    assert_eq!(p.place_at("s", Some(IDS_5), &["b", "a"], secs(3605)), "a");
    // Each pause is within the retention, all of them together are not.
    assert_eq!(p.place_at("s", Some(ABORT), &["b", "a"], secs(3640)), "a");
    assert_eq!(p.place_at("s", Some(ABORT), &["b", "a"], secs(3680)), "a");
    // This one is not.
    assert_eq!(p.place_at("s", Some(ABORT), &["b", "a"], secs(3721)), "b");
}

#[test]
fn a_settle_without_a_lease_changes_no_load() {
    let mut p = fresh();
    p.settle_at("s", secs(0));
    assert!(p.lease_at("s", secs(0)).is_none());
    p.place_at("s", Some(IDS_3), &["a"], secs(0));
    p.settle_at("s", secs(5));
    p.settle_at("s", secs(6));
    assert_eq!(tokens_on(&p, "a"), Some(3));
    // The idle time runs from the last settle.
    p.place_at("t", None, &["b"], secs(16));
    assert_eq!(tokens_on(&p, "a"), Some(3));
    p.place_at("t", None, &["b"], secs(17));
    assert_eq!(tokens_on(&p, "a"), Some(0));
}

#[test]
fn moving_a_session_in_flight_keeps_its_leases() {
    let mut p = fresh();
    p.place_at("s", Some(IDS_3), &["a"], secs(0));
    let lease: SessionLease = p.lease_at("s", secs(0)).unwrap();
    assert_eq!(p.place_at("s", Some(ABORT), &["b"], secs(0)), "b");
    assert_eq!(tokens_on(&p, "a"), Some(0));
    assert_eq!(tokens_on(&p, "b"), Some(4));
    // Still in flight after the move.
    p.place_at("t", None, &["b"], secs(500));
    assert_eq!(p.place_at("s", Some(ABORT), &["a", "b"], secs(500)), "b");
    p.settle_at(lease.key(), secs(500));
    p.place_at("t", None, &["a"], secs(511));
    assert_eq!(tokens_on(&p, "b"), Some(0));
}

#[test]
fn a_release_waits_for_every_request_to_settle() {
    let mut p = fresh();
    p.place_at("s", Some(IDS_3), &["a"], secs(0));
    p.place_at("t", Some(IDS_5), &["a"], secs(0));
    let one: SessionLease = p.lease_at("s", secs(0)).unwrap();
    let two: SessionLease = p.lease_at("s", secs(0)).unwrap();
    assert_eq!(p.release_owners(), 2);
    assert_eq!(p.place_at("s", Some(IDS_3), &["a", "b"], secs(0)), "a");
    p.settle_at(one.key(), secs(0));
    assert_eq!(p.place_at("s", Some(IDS_3), &["a", "b"], secs(0)), "a");
    p.settle_at(two.key(), secs(0));
    assert_eq!(p.place_at("s", Some(IDS_3), &["a", "b"], secs(0)), "b");
    // Placed anew, it sticks, though "a" is no heavier once "t" is gone there.
    assert_eq!(p.place_at("t", Some(IDS_3), &["b", "a"], secs(0)), "a");
    assert_eq!(p.place_at("s", Some(IDS_5), &["a", "b"], secs(0)), "b");
}

#[test]
fn a_released_session_may_be_placed_where_it_was() {
    let mut p = fresh();
    p.place_at("s", Some(IDS_3), &["a"], secs(0));
    p.place_at("t", Some(IDS_5), &["b"], secs(0));
    assert_eq!(p.release_owners(), 2);
    assert_eq!(tokens_on(&p, "a"), Some(3));
    assert_eq!(tokens_on(&p, "b"), Some(5));
    // Its own tokens do not weigh: "a" carries nothing else.
    assert_eq!(p.place_at("s", Some(IDS_3), &["b", "a"], secs(0)), "a");
    assert_eq!(TokenPlacement::new(Duration::from_secs(1)).release_owners(), 0);
}

#[test]
fn without_a_healthy_worker_nothing_is_placed() {
    let mut p = fresh();
    assert_eq!(
        p.try_place_at("s", Some(IDS_3), &[], secs(0)),
        Err(PlacementError::NoHealthyWorker)
    );
    assert!(p.lease_at("s", secs(0)).is_none());
    assert_eq!(
        p.try_place("s", Some(IDS_3), &[]),
        Err(PlacementError::NoHealthyWorker)
    );
    assert_eq!(p.try_place_at("s", Some(IDS_3), &["a"], secs(0)), Ok("a".to_string()));
}

#[test]
fn a_retention_beyond_all_measure_stops_the_sweep() {
    let longest: u128 = MAX_DURATION_NANOS / 4;
    let mut p = TokenPlacement::new(Duration { nanos: longest + 1 });
    // No sweep is due yet.
    assert_eq!(p.try_place_at("s", Some(IDS_3), &["a"], secs(0)), Ok("a".to_string()));
    assert_eq!(
        p.try_place_at("s", Some(IDS_5), &["a"], secs(1)),
        Err(PlacementError::RetentionOverflow)
    );
    assert_eq!(tokens_on(&p, "a"), Some(3));
    let mut q = TokenPlacement::new(Duration { nanos: longest });
    assert_eq!(q.try_place_at("s", Some(IDS_5), &["a"], secs(1)), Ok("a".to_string()));
}

#[test]
fn the_clock_of_a_placement_runs() {
    let mut p = TokenPlacement::new(Duration { nanos: 0 });
    p.place("s", Some(IDS_3), &["a"]);
    assert_eq!(tokens_on(&p, "a"), Some(3));
    let lease: SessionLease = p.lease("s").unwrap();
    let start = std::time::Instant::now();
    while start.elapsed().as_millis() < 1_100 {}
    // In flight, the session stays through the sweep that is now due.
    p.place("t", Some(IDS_5), &["b"]);
    assert_eq!(tokens_on(&p, "a"), Some(3));
    p.settle(lease);
    let start = std::time::Instant::now();
    while start.elapsed().as_millis() < 1_100 {}
    assert_eq!(p.try_place("t", Some(IDS_5), &["b"]), Ok("b".to_string()));
    assert_eq!(tokens_on(&p, "a"), Some(0));
    assert!(p.lease("s").is_none());
    assert!(p.try_lease("s").unwrap().is_none());
    assert!(p.try_lease("t").unwrap().is_some());
}
