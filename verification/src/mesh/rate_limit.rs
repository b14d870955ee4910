//! Token-bucket rate limiting: a global bucket for each direction and, per
//! peer, one bucket for control messages and one for stream bytes.
//!
//! Amounts are kept exactly, in billionths of a token, and time in
//! nanoseconds since the limiter was made: refilling for `t` nanoseconds at
//! `r` tokens per second adds `t * r` billionths, with no rounding.
use crate::platform::{instant_now, nanos_since};
use crate::text::str_eq;
use vstd::prelude::*;

verus! {

/// Billionths of a token in a token.
pub const UNIT: u128 = 1_000_000_000;

/// Per-peer control lane: burst of 40 messages, 20 per second.
pub const CONTROL_BURST: u128 = 40;

pub const CONTROL_PER_SECOND: u128 = 20;

/// Per-peer stream lane: burst of 400 KiB, 200 KiB per second.
pub const STREAM_BURST_BYTES: u128 = 400 * 1024;

pub const STREAM_BYTES_PER_SECOND: u128 = 200 * 1024;

/// Node-wide cap in each direction: 2 MiB per second, as burst too.
pub const GLOBAL_BYTES_PER_SECOND: u128 = 2 * 1024 * 1024;

/// Which per-peer bucket a message draws on.
#[derive(Clone, Copy, Debug, PartialEq, Eq, Structural)]
pub enum RateLane {
    Control,
    Stream,
}

/// A bucket: its capacity and tokens in billionths of a token, its refill
/// rate in tokens per second, and when it was last refilled.
pub struct Bucket {
    pub capacity: int,
    pub tokens: int,
    pub rate: int,
    pub last: int,
}

/// A bucket refilled up to `now`: the time since its last refill (none if
/// the clock reads earlier) times its rate, capped at its capacity.
pub open spec fn refilled(b: Bucket, now: int) -> Bucket {
    let elapsed = if now >= b.last {
        now - b.last
    } else {
        0
    };
    let t = b.tokens + elapsed * b.rate;
    Bucket { tokens: if t < b.capacity {
        t
    } else {
        b.capacity
    }, last: now, ..b }
}

/// Whether a bucket, refilled up to `now`, holds `cost`.
pub open spec fn bucket_allows(b: Bucket, now: int, cost: int) -> bool {
    refilled(b, now).tokens >= cost
}

/// A bucket after a request of `cost` at `now`: refilled, and the cost
/// taken when it holds it.
pub open spec fn bucket_after(b: Bucket, now: int, cost: int) -> Bucket {
    let r = refilled(b, now);
    if r.tokens >= cost {
        Bucket { tokens: r.tokens - cost, ..r }
    } else {
        r
    }
}

/// A bucket after a message of `cost` that it must take whether or not
/// it holds it: refilled, and the cost taken down to empty.
pub open spec fn bucket_charged(b: Bucket, now: int, cost: int) -> Bucket {
    let r = refilled(b, now);
    Bucket { tokens: if r.tokens >= cost {
        r.tokens - cost
    } else {
        0
    }, ..r }
}

/// A node-wide bucket meeting a message of `cost` on `lane`: control
/// messages keep priority, so they are charged but never refused there;
/// stream data is let through only when the bucket holds it. The bucket
/// after, and whether the message may go on to its peer's lane.
pub open spec fn global_step(b: Bucket, lane: RateLane, now: int, cost: int) -> (Bucket, bool) {
    match lane {
        RateLane::Control => (bucket_charged(b, now, cost), true),
        RateLane::Stream => (bucket_after(b, now, cost), bucket_allows(b, now, cost)),
    }
}

/// A full bucket made at `now`.
pub open spec fn full_bucket(capacity: int, rate: int, now: int) -> Bucket {
    Bucket { capacity: capacity, tokens: capacity, rate: rate, last: now }
}

/// Cost of a message of `bytes` bytes in a byte bucket: at least one byte.
pub open spec fn byte_cost(bytes: usize) -> int {
    (if bytes > 1 {
        bytes as int
    } else {
        1
    }) * UNIT
}

#[derive(Debug)]
struct TokenBucket {
    capacity: u128,
    tokens: u128,
    refill_per_second: u128,
    last_refill: u128,
}

impl TokenBucket {
    closed spec fn model(&self) -> Bucket {
        Bucket {
            capacity: self.capacity as int,
            tokens: self.tokens as int,
            rate: self.refill_per_second as int,
            last: self.last_refill as int,
        }
    }

    closed spec fn wf(&self) -> bool {
        self.tokens <= self.capacity
    }

    fn new(capacity: u128, refill_per_second: u128, now: u128) -> (r: Self)
        ensures
            r.model() == full_bucket(capacity as int, refill_per_second as int, now as int),
            r.wf(),
    {
        TokenBucket { capacity, tokens: capacity, refill_per_second, last_refill: now }
    }

    fn refill(&mut self, now: u128)
        requires
            old(self).wf(),
        ensures
            final(self).model() == refilled(old(self).model(), now as int),
            final(self).wf(),
    {
        let elapsed: u128 = if now >= self.last_refill {
            now - self.last_refill
        } else {
            0
        };
        let room: u128 = self.capacity - self.tokens;
        let added: Option<u128> = elapsed.checked_mul(self.refill_per_second);
        self.tokens = match added {
            Some(a) => if a < room {
                self.tokens + a
            } else {
                self.capacity
            },
            None => self.capacity,
        };
        self.last_refill = now;
    }

    fn charge(&mut self, now: u128, cost: u128)
        requires
            old(self).wf(),
        ensures
            final(self).model() == bucket_charged(old(self).model(), now as int, cost as int),
            final(self).wf(),
    {
        self.refill(now);
        if self.tokens >= cost {
            self.tokens = self.tokens - cost;
        } else {
            self.tokens = 0;
        }
    }

    /// Takes `cost` through the node-wide bucket on `lane`; whether the
    /// message may go on.
    fn pass(&mut self, lane: RateLane, now: u128, cost: u128) -> (r: bool)
        requires
            old(self).wf(),
        ensures
            (final(self).model(), r) == global_step(old(self).model(), lane, now as int, cost as int),
            final(self).wf(),
    {
        match lane {
            RateLane::Control => {
                self.charge(now, cost);
                true
            },
            RateLane::Stream => self.allow(now, cost),
        }
    }

    fn allow(&mut self, now: u128, cost: u128) -> (r: bool)
        requires
            old(self).wf(),
        ensures
            r == bucket_allows(old(self).model(), now as int, cost as int),
            final(self).model() == bucket_after(old(self).model(), now as int, cost as int),
            final(self).wf(),
    {
        self.refill(now);
        if self.tokens >= cost {
            self.tokens = self.tokens - cost;
            true
        } else {
            false
        }
    }
}

/// The bucket of one peer.
#[derive(Debug)]
struct PeerBucket {
    peer_id: String,
    bucket: TokenBucket,
}

/// The bucket kept for `peer` among `entries`, looking from `i` on.
pub open spec fn bucket_for(entries: Seq<(Seq<char>, Bucket)>, peer: Seq<char>, i: int) -> Option<
    Bucket,
>
    decreases entries.len() - i,
{
    if i < 0 || i >= entries.len() {
        None
    } else if entries[i].0 == peer {
        Some(entries[i].1)
    } else {
        bucket_for(entries, peer, i + 1)
    }
}

/// The limiter as a model: the buckets of each lane by peer, and the two
/// global buckets.
pub struct LimiterView {
    pub control: Seq<(Seq<char>, Bucket)>,
    pub stream: Seq<(Seq<char>, Bucket)>,
    pub global_in: Bucket,
    pub global_out: Bucket,
}

#[derive(Debug)]
pub struct RateLimiter {
    control: Vec<PeerBucket>,
    stream: Vec<PeerBucket>,
    global_in: TokenBucket,
    global_out: TokenBucket,
    epoch: std::time::Instant,
}

pub open spec fn lane_buckets(v: Seq<(Seq<char>, Bucket)>, peer: Seq<char>) -> Option<Bucket> {
    bucket_for(v, peer, 0)
}

/// The per-peer bucket a lane starts a peer with, at `now`.
pub open spec fn lane_start(lane: RateLane, now: int) -> Bucket {
    match lane {
        RateLane::Control => full_bucket(
            CONTROL_BURST * UNIT,
            CONTROL_PER_SECOND as int,
            now,
        ),
        RateLane::Stream => full_bucket(
            STREAM_BURST_BYTES * UNIT,
            STREAM_BYTES_PER_SECOND as int,
            now,
        ),
    }
}

/// What one message costs in a lane: one token for control, its bytes
/// (at least one) for stream.
pub open spec fn lane_cost(lane: RateLane, bytes: usize) -> int {
    match lane {
        RateLane::Control => UNIT as int,
        RateLane::Stream => byte_cost(bytes),
    }
}

pub open spec fn lane_entries(v: LimiterView, lane: RateLane) -> Seq<(Seq<char>, Bucket)> {
    match lane {
        RateLane::Control => v.control,
        RateLane::Stream => v.stream,
    }
}

/// The peer's bucket in a lane at `now`: the one kept, or a fresh one.
pub open spec fn peer_bucket(v: LimiterView, lane: RateLane, peer: Seq<char>, now: int) -> Bucket {
    match lane_buckets(lane_entries(v, lane), peer) {
        Some(b) => b,
        None => lane_start(lane, now),
    }
}

/// Whether a peer's lane lets a message through at `now`.
pub open spec fn peer_allows(v: LimiterView, peer: Seq<char>, lane: RateLane, bytes: usize, now: int) -> bool {
    bucket_allows(peer_bucket(v, lane, peer, now), now, lane_cost(lane, bytes))
}

/// The peer's bucket in a lane after a message at `now`.
pub open spec fn peer_bucket_after(v: LimiterView, peer: Seq<char>, lane: RateLane, bytes: usize, now: int) -> Bucket {
    bucket_after(peer_bucket(v, lane, peer, now), now, lane_cost(lane, bytes))
}

/// The limiter after a per-peer request: only the peer's bucket in that
/// lane changes.
pub open spec fn after_peer_request(
    before: LimiterView,
    after: LimiterView,
    peer: Seq<char>,
    lane: RateLane,
    bytes: usize,
    now: int,
) -> bool {
    &&& after.global_in == before.global_in
    &&& after.global_out == before.global_out
    &&& lane_buckets(lane_entries(after, lane), peer) == Some(
        peer_bucket_after(before, peer, lane, bytes, now),
    )
    &&& forall|p: Seq<char>|
        p != peer ==> lane_buckets(lane_entries(after, lane), p) == lane_buckets(
            lane_entries(before, lane),
            p,
        )
    &&& forall|p: Seq<char>|
        #![trigger lane_buckets(lane_entries(after, other_lane(lane)), p)]
        lane_buckets(lane_entries(after, other_lane(lane)), p) == lane_buckets(
            lane_entries(before, other_lane(lane)),
            p,
        )
}

pub open spec fn other_lane(lane: RateLane) -> RateLane {
    match lane {
        RateLane::Control => RateLane::Stream,
        RateLane::Stream => RateLane::Control,
    }
}

/// Buckets never hold more than their capacity.
pub open spec fn lane_wf(v: Seq<(Seq<char>, Bucket)>) -> bool {
    forall|i: int| 0 <= i < v.len() ==> #[trigger] v[i].1.tokens <= v[i].1.capacity
}

closed spec fn lane_model(v: Seq<PeerBucket>) -> Seq<(Seq<char>, Bucket)> {
    v.map_values(|e: PeerBucket| (e.peer_id@, e.bucket.model()))
}

impl View for RateLimiter {
    type V = LimiterView;

    closed spec fn view(&self) -> LimiterView {
        LimiterView {
            control: lane_model(self.control@),
            stream: lane_model(self.stream@),
            global_in: self.global_in.model(),
            global_out: self.global_out.model(),
        }
    }
}

pub open spec fn bucket_wf(b: Bucket) -> bool {
    b.tokens <= b.capacity
}

/// A full global bucket at time zero.
pub open spec fn global_start() -> Bucket {
    full_bucket(GLOBAL_BYTES_PER_SECOND * UNIT, GLOBAL_BYTES_PER_SECOND as int, 0)
}

impl RateLimiter {
    /// Every bucket holds at most its capacity.
    pub closed spec fn wf(&self) -> bool {
        &&& self.global_in.wf()
        &&& self.global_out.wf()
        &&& forall|i: int| 0 <= i < self.control@.len() ==> (#[trigger] self.control@[i]).bucket.wf()
        &&& forall|i: int| 0 <= i < self.stream@.len() ==> (#[trigger] self.stream@[i]).bucket.wf()
    }

    /// A limiter with full global buckets and no per-peer buckets.
    pub fn new() -> (r: Self)
        ensures
            r.wf(),
            r@.control.len() == 0,
            r@.stream.len() == 0,
            r@.global_in == global_start(),
            r@.global_out == global_start(),
    {
        let bytes_per_second: u128 = GLOBAL_BYTES_PER_SECOND;
        let r = RateLimiter {
            control: Vec::new(),
            stream: Vec::new(),
            global_in: TokenBucket::new(bytes_per_second * UNIT, bytes_per_second, 0),
            global_out: TokenBucket::new(bytes_per_second * UNIT, bytes_per_second, 0),
            epoch: instant_now(),
        };
        assert(r@.control =~= Seq::<(Seq<char>, Bucket)>::empty());
        assert(r@.stream =~= Seq::<(Seq<char>, Bucket)>::empty());
        r
    }

    /// Whether an outbound message of `bytes` bytes to `peer_id` on `lane`
    /// may go now.
    pub fn allow_outbound(&mut self, peer_id: &str, lane: RateLane, bytes: usize) -> (r: bool)
        requires
            old(self).wf(),
        ensures
            final(self).wf(),
            exists|now: u128| #[trigger]
                outbound_decision(old(self)@, final(self)@, peer_id@, lane, bytes, now as int, r),
    {
        let now = self.now();
        self.allow_outbound_at(peer_id, lane, bytes, now)
    }

    /// Whether an inbound message of `bytes` bytes from `peer_id` on `lane`
    /// may be taken now.
    pub fn allow_inbound(&mut self, peer_id: &str, lane: RateLane, bytes: usize) -> (r: bool)
        requires
            old(self).wf(),
        ensures
            final(self).wf(),
            exists|now: u128| #[trigger]
                inbound_decision(old(self)@, final(self)@, peer_id@, lane, bytes, now as int, r),
    {
        let now = self.now();
        self.allow_inbound_at(peer_id, lane, bytes, now)
    }

    /// Nanoseconds since the limiter was made.
    pub fn now(&self) -> u128 {
        nanos_since(&self.epoch)
    }

    /// The outbound decision at `now` (nanoseconds since the limiter was
    /// made).
    pub fn allow_outbound_at(&mut self, peer_id: &str, lane: RateLane, bytes: usize, now: u128) -> (r:
        bool)
        requires
            old(self).wf(),
        ensures
            final(self).wf(),
            outbound_decision(old(self)@, final(self)@, peer_id@, lane, bytes, now as int, r),
    {
        let cost = cost_of(bytes);
        if !self.global_out.pass(lane, now, cost) {
            return false;
        }
        self.allow_peer(peer_id, lane, bytes, now)
    }

    /// The inbound decision at `now` (nanoseconds since the limiter was
    /// made).
    pub fn allow_inbound_at(&mut self, peer_id: &str, lane: RateLane, bytes: usize, now: u128) -> (r:
        bool)
        requires
            old(self).wf(),
        ensures
            final(self).wf(),
            inbound_decision(old(self)@, final(self)@, peer_id@, lane, bytes, now as int, r),
    {
        let cost = cost_of(bytes);
        if !self.global_in.pass(lane, now, cost) {
            return false;
        }
        self.allow_peer(peer_id, lane, bytes, now)
    }

    fn allow_peer(&mut self, peer_id: &str, lane: RateLane, bytes: usize, now: u128) -> (r: bool)
        requires
            old(self).wf(),
        ensures
            final(self).wf(),
            r == peer_allows(old(self)@, peer_id@, lane, bytes, now as int),
            after_peer_request(old(self)@, final(self)@, peer_id@, lane, bytes, now as int),
    {
        match lane {
            RateLane::Control => {
                let ghost other = self@.stream;
                let r = lane_request(
                    &mut self.control,
                    peer_id,
                    CONTROL_BURST * UNIT,
                    CONTROL_PER_SECOND,
                    UNIT,
                    now,
                );
                assert(self@.stream == other);
                r
            },
            RateLane::Stream => {
                let ghost other = self@.control;
                let r = lane_request(
                    &mut self.stream,
                    peer_id,
                    STREAM_BURST_BYTES * UNIT,
                    STREAM_BYTES_PER_SECOND,
                    cost_of(bytes),
                    now,
                );
                assert(self@.control == other);
                r
            },
        }
    }

    /// How long a refused sender should wait before trying again:
    /// `RETRY_AFTER_MS` milliseconds.
    pub fn retry_after() -> (r: std::time::Duration)
        ensures
            r == crate::platform::millis_span(RETRY_AFTER_MS),
    {
        crate::platform::duration_from_millis(RETRY_AFTER_MS)
    }
}

/// Milliseconds a refused sender should wait.
pub const RETRY_AFTER_MS: u64 = 250;

impl Default for RateLimiter {
    fn default() -> (r: Self)
        ensures
            r.wf(),
            r@.control.len() == 0,
            r@.stream.len() == 0,
            r@.global_in == global_start(),
            r@.global_out == global_start(),
    {
        RateLimiter::new()
    }
}

/// The outbound decision. The node-wide outbound bucket meets the message
/// first: a control message is charged its bytes (at least one) but never
/// refused there, so control keeps priority; stream data must be covered
/// by the bucket, so under load it is throttled first. A message the
/// node-wide bucket lets through must then be let through by its peer's
/// lane. A refusal by the node-wide bucket leaves every per-peer bucket as
/// it was.
pub open spec fn outbound_decision(
    before: LimiterView,
    after: LimiterView,
    peer: Seq<char>,
    lane: RateLane,
    bytes: usize,
    now: int,
    r: bool,
) -> bool {
    let (g, passed) = global_step(before.global_out, lane, now, byte_cost(bytes));
    let mid = LimiterView { global_out: g, ..before };
    if !passed {
        &&& !r
        &&& after == mid
    } else {
        &&& r == peer_allows(mid, peer, lane, bytes, now)
        &&& after_peer_request(mid, after, peer, lane, bytes, now)
    }
}

/// The inbound decision, as the outbound one with the node-wide inbound
/// bucket.
pub open spec fn inbound_decision(
    before: LimiterView,
    after: LimiterView,
    peer: Seq<char>,
    lane: RateLane,
    bytes: usize,
    now: int,
    r: bool,
) -> bool {
    let (g, passed) = global_step(before.global_in, lane, now, byte_cost(bytes));
    let mid = LimiterView { global_in: g, ..before };
    if !passed {
        &&& !r
        &&& after == mid
    } else {
        &&& r == peer_allows(mid, peer, lane, bytes, now)
        &&& after_peer_request(mid, after, peer, lane, bytes, now)
    }
}

fn cost_of(bytes: usize) -> (r: u128)
    ensures
        r == byte_cost(bytes),
{
    let b: u128 = if bytes > 1 {
        bytes as u128
    } else {
        1
    };
    b * UNIT
}

pub proof fn lemma_bucket_for(entries: Seq<(Seq<char>, Bucket)>, peer: Seq<char>, i: int)
    requires
        0 <= i,
    ensures
        match bucket_for(entries, peer, i) {
            Some(b) => exists|k: int|
                i <= k < entries.len() && entries[k].0 == peer && entries[k].1 == b && forall|
                    m: int,
                | i <= m < k ==> entries[m].0 != peer,
            None => forall|m: int| i <= m < entries.len() ==> entries[m].0 != peer,
        },
    decreases entries.len() - i,
{
    if i < entries.len() && entries[i].0 != peer {
        lemma_bucket_for(entries, peer, i + 1);
    }
}

/// Looking up a peer after the entry at `k`, the first with that peer, got
/// a new bucket: that peer finds the new bucket, the others what they found.
proof fn lemma_bucket_for_update(
    entries: Seq<(Seq<char>, Bucket)>,
    k: int,
    b: Bucket,
    i: int,
)
    requires
        0 <= i <= k < entries.len(),
        forall|m: int| i <= m < k ==> entries[m].0 != entries[k].0,
    ensures
        bucket_for(entries.update(k, (entries[k].0, b)), entries[k].0, i) == Some(b),
        forall|p: Seq<char>|
            p != entries[k].0 ==> bucket_for(entries.update(k, (entries[k].0, b)), p, i)
                == bucket_for(entries, p, i),
    decreases entries.len() - i,
{
    let u = entries.update(k, (entries[k].0, b));
    if i < k {
        lemma_bucket_for_update(entries, k, b, i + 1);
    }
    assert forall|p: Seq<char>| p != entries[k].0 implies bucket_for(u, p, i) == bucket_for(
        entries,
        p,
        i,
    ) by {
        lemma_bucket_for_other(entries, k, b, p, i);
    }
}

proof fn lemma_bucket_for_other(
    entries: Seq<(Seq<char>, Bucket)>,
    k: int,
    b: Bucket,
    p: Seq<char>,
    i: int,
)
    requires
        0 <= i,
        0 <= k < entries.len(),
        p != entries[k].0,
    ensures
        bucket_for(entries.update(k, (entries[k].0, b)), p, i) == bucket_for(entries, p, i),
    decreases entries.len() - i,
{
    if i < entries.len() {
        lemma_bucket_for_other(entries, k, b, p, i + 1);
    }
}

/// Appending a bucket for a peer no entry has: that peer finds it, the
/// others what they found.
proof fn lemma_bucket_for_push(entries: Seq<(Seq<char>, Bucket)>, peer: Seq<char>, b: Bucket, i: int)
    requires
        0 <= i <= entries.len(),
        forall|m: int| i <= m < entries.len() ==> entries[m].0 != peer,
    ensures
        bucket_for(entries.push((peer, b)), peer, i) == Some(b),
        forall|p: Seq<char>|
            p != peer ==> bucket_for(entries.push((peer, b)), p, i) == bucket_for(entries, p, i),
    decreases entries.len() - i,
{
    if i < entries.len() {
        lemma_bucket_for_push(entries, peer, b, i + 1);
    }
    assert forall|p: Seq<char>| p != peer implies bucket_for(entries.push((peer, b)), p, i)
        == bucket_for(entries, p, i) by {
        lemma_bucket_for_push_other(entries, peer, b, p, i);
    }
}

proof fn lemma_bucket_for_push_other(
    entries: Seq<(Seq<char>, Bucket)>,
    peer: Seq<char>,
    b: Bucket,
    p: Seq<char>,
    i: int,
)
    requires
        0 <= i,
        p != peer,
    ensures
        bucket_for(entries.push((peer, b)), p, i) == bucket_for(entries, p, i),
    decreases entries.len() + 1 - i,
{
    if i < entries.len() + 1 {
        lemma_bucket_for_push_other(entries, peer, b, p, i + 1);
    }
}

/// One request on a lane's buckets: the peer's bucket (made full at `now`
/// when the peer has none) is asked for `cost`.
fn lane_request(
    entries: &mut Vec<PeerBucket>,
    peer_id: &str,
    capacity: u128,
    rate: u128,
    cost: u128,
    now: u128,
) -> (r: bool)
    requires
        forall|i: int| 0 <= i < old(entries)@.len() ==> (#[trigger] old(entries)@[i]).bucket.wf(),
    ensures
        forall|i: int| 0 <= i < final(entries)@.len() ==> (#[trigger] final(entries)@[i]).bucket.wf(),
        ({
            let start = match bucket_for(lane_model(old(entries)@), peer_id@, 0) {
                Some(b) => b,
                None => full_bucket(capacity as int, rate as int, now as int),
            };
            &&& r == bucket_allows(start, now as int, cost as int)
            &&& bucket_for(lane_model(final(entries)@), peer_id@, 0) == Some(
                bucket_after(start, now as int, cost as int),
            )
            &&& forall|p: Seq<char>|
                p != peer_id@ ==> bucket_for(lane_model(final(entries)@), p, 0) == bucket_for(
                    lane_model(old(entries)@),
                    p,
                    0,
                )
        }),
{
    let ghost before = lane_model(entries@);
    let mut i: usize = 0;
    while i < entries.len()
        invariant
            i <= entries@.len(),
            entries@ == old(entries)@,
            forall|m: int| 0 <= m < entries@.len() ==> (#[trigger] entries@[m]).bucket.wf(),
            before == lane_model(entries@),
            forall|m: int| 0 <= m < i ==> before[m].0 != peer_id@,
        decreases entries@.len() - i,
    {
        if str_eq(entries[i].peer_id.as_str(), peer_id) {
            proof {
                assert(before[i as int].0 == peer_id@);
                lemma_bucket_for(before, peer_id@, 0);
                assert(bucket_for(before, peer_id@, 0) == bucket_for(before, peer_id@, i as int))
                    by {
                    lemma_bucket_for_skip(before, peer_id@, 0, i as int);
                }
            }
            let mut entry = entries.remove(i);
            let r = entry.bucket.allow(now, cost);
            let ghost nb = entry.bucket.model();
            entries.insert(i, entry);
            proof {
                assert(lane_model(entries@) =~= before.update(i as int, (peer_id@, nb)));
                lemma_bucket_for_update(before, i as int, nb, 0);
                assert forall|j: int| 0 <= j < entries@.len() implies (
                #[trigger] entries@[j]).bucket.wf() by {
                    if j != i {
                        assert(entries@[j] == old(entries)@[j]);
                    }
                }
            }
            return r;
        }
        i = i + 1;
    }
    let mut bucket = TokenBucket::new(capacity, rate, now);
    let r = bucket.allow(now, cost);
    let ghost nb = bucket.model();
    entries.push(PeerBucket { peer_id: peer_id.to_string(), bucket });
    proof {
        lemma_bucket_for(before, peer_id@, 0);
        assert(lane_model(entries@) =~= before.push((peer_id@, nb)));
        lemma_bucket_for_push(before, peer_id@, nb, 0);
        assert forall|j: int| 0 <= j < entries@.len() implies (#[trigger] entries@[j]).bucket.wf() by {
            if j < old(entries)@.len() {
                assert(entries@[j] == old(entries)@[j]);
            }
        }
    }
    r
}

proof fn lemma_bucket_for_skip(entries: Seq<(Seq<char>, Bucket)>, peer: Seq<char>, i: int, j: int)
    requires
        0 <= i <= j,
        forall|m: int| i <= m < j && m < entries.len() ==> entries[m].0 != peer,
    ensures
        bucket_for(entries, peer, i) == bucket_for(entries, peer, j),
    decreases j - i,
{
    if i < j && i < entries.len() {
        lemma_bucket_for_skip(entries, peer, i + 1, j);
    } else if i < j {
        lemma_bucket_for_past_end(entries, peer, i);
        lemma_bucket_for_past_end(entries, peer, j);
    }
}

proof fn lemma_bucket_for_past_end(entries: Seq<(Seq<char>, Bucket)>, peer: Seq<char>, i: int)
    requires
        i >= entries.len(),
    ensures
        bucket_for(entries, peer, i) is None,
{
}

/// A bucket after `k` requests of `cost` at one instant `now`.
pub open spec fn after_requests(b: Bucket, now: int, cost: int, k: nat) -> Bucket
    decreases k,
{
    if k == 0 {
        b
    } else {
        bucket_after(after_requests(b, now, cost, (k - 1) as nat), now, cost)
    }
}

proof fn lemma_control_burst(now: int, k: nat)
    ensures
        after_requests(lane_start(RateLane::Control, now), now, UNIT as int, k).last == now,
        after_requests(lane_start(RateLane::Control, now), now, UNIT as int, k).rate == 20,
        after_requests(lane_start(RateLane::Control, now), now, UNIT as int, k).capacity
            == 40_000_000_000,
        after_requests(lane_start(RateLane::Control, now), now, UNIT as int, k).tokens == if k
            <= 40 {
            (40 - k) * 1_000_000_000
        } else {
            0
        },
    decreases k,
{
    if k > 0 {
        lemma_control_burst(now, (k - 1) as nat);
        let b = after_requests(lane_start(RateLane::Control, now), now, UNIT as int, (k - 1) as nat);
        assert(0 * b.rate == 0);
        assert(refilled(b, now).tokens == b.tokens);
    }
}

/// Burst: a peer's control lane, new at `now`, lets through exactly
/// `CONTROL_BURST` messages at that instant.
pub proof fn law_control_burst(now: int, k: nat)
    ensures
        k < CONTROL_BURST ==> bucket_allows(
            after_requests(lane_start(RateLane::Control, now), now, UNIT as int, k),
            now,
            lane_cost(RateLane::Control, 0),
        ),
        k >= CONTROL_BURST ==> !bucket_allows(
            after_requests(lane_start(RateLane::Control, now), now, UNIT as int, k),
            now,
            lane_cost(RateLane::Control, 0),
        ),
{
    lemma_control_burst(now, k);
}

/// Rate: a control bucket emptied at `t` holds `CONTROL_PER_SECOND`
/// messages one second later.
pub proof fn law_control_refill_per_second(t: int)
    ensures
        refilled(
            Bucket { tokens: 0, ..lane_start(RateLane::Control, t) },
            t + 1_000_000_000,
        ).tokens == CONTROL_PER_SECOND * UNIT,
{
}

/// Burst: a peer's stream lane, new at `now`, takes a message of
/// `STREAM_BURST_BYTES` bytes at once but not one byte more; the global
/// buckets take `GLOBAL_BYTES_PER_SECOND` bytes at once but not one more.
pub proof fn law_byte_bursts(now: int)
    ensures
        bucket_allows(
            lane_start(RateLane::Stream, now),
            now,
            lane_cost(RateLane::Stream, 409600usize),
        ),
        !bucket_allows(
            lane_start(RateLane::Stream, now),
            now,
            lane_cost(RateLane::Stream, 409601usize),
        ),
        bucket_allows(global_start(), 0, byte_cost(2097152usize)),
        !bucket_allows(global_start(), 0, byte_cost(2097153usize)),
{
}

/// Stream data needs the node-wide bucket: a stream message it cannot
/// cover is refused and leaves every per-peer bucket as it was; a stream
/// message let through was covered there and by its peer's lane.
pub proof fn law_stream_needs_both_buckets(
    before: LimiterView,
    after: LimiterView,
    peer: Seq<char>,
    bytes: usize,
    now: int,
    r: bool,
)
    requires
        outbound_decision(before, after, peer, RateLane::Stream, bytes, now, r),
    ensures
        !bucket_allows(before.global_out, now, byte_cost(bytes)) ==> !r && after.control
            == before.control && after.stream == before.stream,
        r ==> bucket_allows(before.global_out, now, byte_cost(bytes)) && peer_allows(
            LimiterView { global_out: bucket_after(before.global_out, now, byte_cost(bytes)), ..before },
            peer,
            RateLane::Stream,
            bytes,
            now,
        ),
{
}

/// Control keeps priority: whether an outbound control message goes
/// depends on its peer's control lane alone, however little the node-wide
/// bucket holds; the node-wide bucket is still charged for it.
pub proof fn law_control_keeps_priority(
    before: LimiterView,
    after: LimiterView,
    peer: Seq<char>,
    bytes: usize,
    now: int,
    r: bool,
)
    requires
        outbound_decision(before, after, peer, RateLane::Control, bytes, now, r),
    ensures
        r == bucket_allows(
            peer_bucket(before, RateLane::Control, peer, now),
            now,
            lane_cost(RateLane::Control, bytes),
        ),
        after.global_out == bucket_charged(before.global_out, now, byte_cost(bytes)),
{
}

/// Stream data never draws on the control lane: an outbound stream
/// message leaves every peer's control bucket as it was.
pub proof fn law_stream_leaves_control_lane(
    before: LimiterView,
    after: LimiterView,
    peer: Seq<char>,
    bytes: usize,
    now: int,
    r: bool,
)
    requires
        outbound_decision(before, after, peer, RateLane::Stream, bytes, now, r),
    ensures
        forall|p: Seq<char>| #[trigger]
            lane_buckets(after.control, p) == lane_buckets(before.control, p),
{
    if bucket_allows(before.global_out, now, byte_cost(bytes)) {
        let mid = LimiterView { global_out: bucket_after(before.global_out, now, byte_cost(bytes)), ..before };
        assert forall|p: Seq<char>| #[trigger]
            lane_buckets(after.control, p) == lane_buckets(before.control, p) by {
            assert(lane_entries(after, other_lane(RateLane::Stream)) == after.control);
            assert(lane_entries(mid, other_lane(RateLane::Stream)) == before.control);
        }
    }
}


/// An inbound message draws on its own lane only: every peer's bucket in
/// the other lane is left as it was, and a message let in is charged its
/// lane's cost in its peer's bucket of that lane.
pub proof fn law_inbound_draws_on_its_lane(
    before: LimiterView,
    after: LimiterView,
    peer: Seq<char>,
    lane: RateLane,
    bytes: usize,
    now: int,
    r: bool,
)
    requires
        inbound_decision(before, after, peer, lane, bytes, now, r),
    ensures
        forall|p: Seq<char>| #[trigger]
            lane_buckets(lane_entries(after, other_lane(lane)), p) == lane_buckets(
                lane_entries(before, other_lane(lane)),
                p,
            ),
        r ==> lane_buckets(lane_entries(after, lane), peer) == Some(
            bucket_after(peer_bucket(before, lane, peer, now), now, lane_cost(lane, bytes)),
        ),
{
    let (g, passed) = global_step(before.global_in, lane, now, byte_cost(bytes));
    let mid = LimiterView { global_in: g, ..before };
    assert(lane_entries(mid, lane) == lane_entries(before, lane));
    assert(lane_entries(mid, other_lane(lane)) == lane_entries(before, other_lane(lane)));
    if passed {
        assert forall|p: Seq<char>| #[trigger]
            lane_buckets(lane_entries(after, other_lane(lane)), p) == lane_buckets(
                lane_entries(before, other_lane(lane)),
                p,
            ) by {
            assert(lane_buckets(lane_entries(after, other_lane(lane)), p) == lane_buckets(
                lane_entries(mid, other_lane(lane)),
                p,
            ));
        }
    }
}

} // verus!
