use master_program::mesh::rate_limit::{RateLane, RateLimiter};

#[test]
fn control_lane_allows_burst_of_forty_then_refills() {
    let mut limiter = RateLimiter::new();
    for _ in 0..40 {
        assert!(limiter.allow_outbound_at("peer", RateLane::Control, 100, 10));
    }
    assert!(!limiter.allow_outbound_at("peer", RateLane::Control, 100, 10));
    // 50 ms later one more token (20 per second) has come back.
    assert!(limiter.allow_outbound_at("peer", RateLane::Control, 100, 50_000_010));
    assert!(!limiter.allow_outbound_at("peer", RateLane::Control, 100, 50_000_010));
    // Other peers have their own lane.
    assert!(limiter.allow_outbound_at("other", RateLane::Control, 100, 50_000_010));
}

#[test]
fn stream_lane_counts_bytes() {
    let mut limiter = RateLimiter::new();
    assert!(limiter.allow_inbound_at("peer", RateLane::Stream, 400 * 1024, 0));
    assert!(!limiter.allow_inbound_at("peer", RateLane::Stream, 1, 0));
    // Control messages to the same peer are not held back by stream data.
    assert!(limiter.allow_inbound_at("peer", RateLane::Control, 10, 0));
    // One second refills 200 KiB.
    assert!(limiter.allow_inbound_at("peer", RateLane::Stream, 200 * 1024, 1_000_000_000));
    assert!(!limiter.allow_inbound_at("peer", RateLane::Stream, 1, 1_000_000_000));
}

#[test]
fn global_cap_applies_to_all_peers() {
    let mut limiter = RateLimiter::new();
    let mut sent = 0usize;
    let mut peer = 0;
    while sent + 400 * 1024 <= 2 * 1024 * 1024 {
        let name = format!("peer-{peer}");
        assert!(limiter.allow_outbound_at(&name, RateLane::Stream, 400 * 1024, 0));
        sent += 400 * 1024;
        peer += 1;
    }
    assert!(!limiter.allow_outbound_at("fresh", RateLane::Stream, 400 * 1024, 0));
    // Inbound has its own global bucket.
    assert!(limiter.allow_inbound_at("fresh", RateLane::Stream, 400 * 1024, 0));
}

#[test]
fn zero_bytes_cost_one() {
    let mut limiter = RateLimiter::new();
    assert!(limiter.allow_outbound_at("p", RateLane::Stream, 400 * 1024 - 1, 0));
    assert!(limiter.allow_outbound_at("p", RateLane::Stream, 0, 0));
    assert!(!limiter.allow_outbound_at("p", RateLane::Stream, 0, 0));
}

#[test]
fn retry_after_is_a_quarter_second() {
    assert_eq!(RateLimiter::retry_after(), std::time::Duration::from_millis(250));
    let mut limiter = RateLimiter::default();
    assert!(limiter.allow_outbound("p", RateLane::Control, 10));
    assert!(limiter.allow_inbound("p", RateLane::Control, 10));
}

#[test]
fn control_keeps_priority_when_node_is_under_load() {
    let mut limiter = RateLimiter::new();
    for i in 0..5 {
        let name = format!("bulk-{i}");
        assert!(limiter.allow_outbound_at(&name, RateLane::Stream, 400 * 1024, 0));
    }
    assert!(limiter.allow_outbound_at("bulk-5", RateLane::Stream, 2 * 1024 * 1024 - 5 * 400 * 1024, 0));
    // The node-wide outbound budget is spent: stream data is throttled...
    assert!(!limiter.allow_outbound_at("p", RateLane::Stream, 1000, 0));
    // ...while a control message still goes, up to its peer's own burst.
    for _ in 0..40 {
        assert!(limiter.allow_outbound_at("p", RateLane::Control, 1000, 0));
    }
    assert!(!limiter.allow_outbound_at("p", RateLane::Control, 1000, 0));
    // Control traffic was charged to the node-wide bucket: stream data
    // still waits for a refill.
    assert!(!limiter.allow_outbound_at("q", RateLane::Stream, 1, 0));
}
