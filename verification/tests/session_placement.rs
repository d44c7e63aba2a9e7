//! Requests, leases and settles of sessions, one scenario each.

use session_placement::prompt_token_count;
use session_placement::Duration;
use session_placement::Instant;
use session_placement::SessionLease;
use session_placement::TokenPlacement;

fn body(tokens: usize) -> String {
    let ids: Vec<String> = (0..tokens).map(|i| (i % 1000).to_string()).collect();
    format!(
        "{{\"prompt_ids\":[{}],\"request_id\":\"r\"}}",
        ids.join(",")
    )
}

fn settle(placement: &mut TokenPlacement, lease: SessionLease, now: Instant) {
    placement.settle_at(lease.key(), now);
}

fn tokens_on(placement: &TokenPlacement, worker: &str) -> u64 {
    placement.worker_tokens().get(worker).copied().unwrap_or(0)
}

/// The moment `secs` seconds after `start`.
fn after(start: Instant, secs: u64) -> Instant {
    Instant {
        nanos: start.nanos + Duration::from_secs(secs).nanos,
    }
}

#[test]
fn counts_prompt_ids() {
    assert_eq!(prompt_token_count(Some(&body(3))), Some(3));
    assert_eq!(prompt_token_count(Some("{\"prompt_ids\": [ ]}")), Some(0));
    assert_eq!(
        prompt_token_count(Some("{\"prompt_ids\" : [7, 8]}")),
        Some(2)
    );
    assert_eq!(prompt_token_count(Some("{\"request_id\":\"r\"}")), None);
    assert_eq!(prompt_token_count(None), None);
}

#[test]
fn sessions_are_sticky_and_track_growth() {
    let mut placement = TokenPlacement::new(Duration::from_secs(900));
    let workers = ["a", "b"];
    let owner: String = placement.place("s", Some(&body(1000)), &workers);
    assert_eq!(tokens_on(&placement, &owner), 1000);
    // A new session goes to the other, empty worker.
    let other: String = placement.place("t", Some(&body(10)), &workers);
    assert_ne!(other, owner);
    assert_eq!(placement.place("s", Some(&body(5000)), &workers), owner);
    assert_eq!(tokens_on(&placement, &owner), 5000);
    // An abort-shaped body neither moves nor shrinks the session.
    assert_eq!(
        placement.place("s", Some("{\"request_id\":\"r\"}"), &workers),
        owner
    );
    assert_eq!(tokens_on(&placement, &owner), 5000);
}

#[test]
fn idle_sessions_stop_counting_then_are_forgotten() {
    let mut placement = TokenPlacement::new(Duration::from_secs(10));
    let workers = ["a", "b"];
    let start = Instant { nanos: 0 };
    let owner: String = placement.place_at("s", Some(&body(80_000)), &workers, start);
    let later = after(start, 11);
    // The idle 80k session no longer counts, so a new session may share its worker.
    placement.place_at("t", Some(&body(10)), &workers, later);
    assert!(tokens_on(&placement, &owner) <= 10);
    // Returning within the retention window restores stickiness and load.
    assert_eq!(
        placement.place_at("s", Some(&body(80_001)), &workers, later),
        owner
    );
    assert!(tokens_on(&placement, &owner) >= 80_001);
    let forgotten = after(start, 60);
    placement.place_at("u", Some(&body(1)), &workers, forgotten);
    assert_eq!(tokens_on(&placement, "a") + tokens_on(&placement, "b"), 1);
}

#[test]
fn a_session_in_flight_never_expires() {
    let mut placement = TokenPlacement::new(Duration::from_secs(10));
    let workers = ["a", "b"];
    let start = Instant { nanos: 0 };
    let owner: String = placement.place_at("s", Some(&body(80_000)), &workers, start);
    let generation = placement.lease_at("s", start).unwrap();
    // A generation far longer than the idle and retention periods keeps counting.
    let during = after(start, 3_600);
    placement.place_at("t", Some(&body(10)), &workers, during);
    assert!(tokens_on(&placement, &owner) >= 80_000);
    // Its abort, sent after the long gap, reaches the same worker.
    assert_eq!(
        placement.place_at("s", Some("{\"request_id\":\"r\"}"), &workers, during),
        owner
    );
    let abort = placement.lease_at("s", during).unwrap();
    // Settle both at the synthetic clock.
    settle(&mut placement, abort, during);
    settle(&mut placement, generation, after(during, 1));
    // Expiry starts only after the last request settles.
    let settled = after(during, 1);
    placement.place_at("u", Some(&body(1)), &workers, after(settled, 5));
    assert!(tokens_on(&placement, &owner) >= 80_000);
    placement.place_at("u", Some(&body(1)), &workers, after(settled, 11));
    assert!(tokens_on(&placement, &owner) < 80_000);
}

#[test]
fn an_abort_after_a_long_gap_keeps_the_owner_until_retention_ends() {
    let mut placement = TokenPlacement::new(Duration::from_secs(10));
    let workers = ["a", "b"];
    let start = Instant { nanos: 0 };
    let owner: String = placement.place_at("s", Some(&body(500)), &workers, start);
    let first = placement.lease_at("s", start).unwrap();
    settle(&mut placement, first, start);
    // An abort idle past the idle period but inside retention reaches the owner,
    // even though the owner now carries more load than its peer.
    placement.place_at("t", Some(&body(10)), &workers, start);
    let abort: &str = "{\"request_id\":\"r\"}";
    let gap = after(start, 35);
    assert_eq!(placement.place_at("s", Some(abort), &workers, gap), owner);
    let lease = placement.lease_at("s", gap).unwrap();
    assert_eq!(tokens_on(&placement, &owner), 500);
    settle(&mut placement, lease, gap);
}

#[test]
fn released_sessions_are_re_placed_by_tokens_once_idle() {
    let mut placement = TokenPlacement::new(Duration::from_secs(900));
    let workers = ["a", "b"];
    let start = Instant { nanos: 0 };
    // Two 40k sessions on "a" and "b"; "s" is in flight on its owner.
    let owner: String = placement.place_at("s", Some(&body(40_000)), &workers, start);
    placement.place_at("t", Some(&body(40_000)), &workers, start);
    let generation = placement.lease_at("s", start).unwrap();
    // Make the owner the heavier worker so a re-placement would move "s".
    placement.place_at("u", Some(&body(50_000)), &[owner.as_str()], start);
    assert_eq!(placement.release_owners(), 3);
    // In flight: the abort and any resume keep the owner.
    assert_eq!(
        placement.place_at("s", Some("{\"request_id\":\"g\"}"), &workers, start),
        owner
    );
    settle(&mut placement, generation, start);
    // Idle after the release: the resumed turn goes to the least-token worker.
    let other: &str = if owner == "a" { "b" } else { "a" };
    assert_eq!(
        placement.place_at("s", Some(&body(40_100)), &workers, start),
        other
    );
    // ...and sticks there afterwards.
    assert_eq!(
        placement.place_at("s", Some(&body(40_200)), &workers, start),
        other
    );
    assert_eq!(tokens_on(&placement, &owner), 50_000);
}

#[test]
fn unhealthy_owner_moves_the_session() {
    let mut placement = TokenPlacement::new(Duration::from_secs(900));
    let owner: String = placement.place("s", Some(&body(100)), &["a", "b"]);
    let survivor: &str = if owner == "a" { "b" } else { "a" };
    assert_eq!(
        placement.place("s", Some(&body(200)), &[survivor]),
        survivor
    );
    assert_eq!(tokens_on(&placement, &owner), 0);
    assert_eq!(tokens_on(&placement, survivor), 200);
}
