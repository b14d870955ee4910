//! Stream sessions: text sent as numbered chunks that may arrive out of
//! order or twice, checked and put back together on the receiving side.
//!
//! Times are nanoseconds since the session was opened.
use crate::mesh::identity::owned;
use crate::platform::{duration_nanos, instant_now, millis_span, nanos_since, new_message_id};
use vstd::prelude::*;
use vstd::utf8::encode_utf8;

verus! {

broadcast use vstd::string::group_string_axioms;

pub const STREAM_OPEN: &'static str = "stream.open";

pub const STREAM_CHUNK: &'static str = "stream.chunk";

pub const STREAM_ACK: &'static str = "stream.ack";

pub const STREAM_NACK: &'static str = "stream.nack";

pub const STREAM_END: &'static str = "stream.end";

pub const STREAM_CANCEL: &'static str = "stream.cancel";

pub const STREAM_ERROR: &'static str = "stream.error";

/// One numbered piece of a stream. `byte_length` is the length in bytes
/// the sender gives for `payload`.
#[derive(Debug)]
pub struct StreamChunk {
    pub session_id: u128,
    pub chunk_index: u64,
    pub total_chunks: Option<u64>,
    pub byte_length: usize,
    pub payload: String,
}

pub struct ChunkView {
    pub session_id: u128,
    pub chunk_index: u64,
    pub total_chunks: Option<u64>,
    pub byte_length: usize,
    pub payload: Seq<char>,
}

impl View for StreamChunk {
    type V = ChunkView;

    open spec fn view(&self) -> ChunkView {
        ChunkView {
            session_id: self.session_id,
            chunk_index: self.chunk_index,
            total_chunks: self.total_chunks,
            byte_length: self.byte_length,
            payload: self.payload@,
        }
    }
}

impl Clone for StreamChunk {
    fn clone(&self) -> (r: Self)
        ensures
            r@ == self@,
    {
        StreamChunk {
            session_id: self.session_id,
            chunk_index: self.chunk_index,
            total_chunks: self.total_chunks,
            byte_length: self.byte_length,
            payload: self.payload.clone(),
        }
    }
}

#[derive(Clone, Copy, Debug, PartialEq, Eq, Structural)]
pub enum StreamState {
    Open,
    Ended,
    Cancelled,
    Error,
}

#[derive(Debug)]
struct ChunkSlot {
    index: u64,
    payload: String,
}

/// A session as a model: the chunks taken so far by index, the announced
/// number of chunks, and when the last chunk was taken.
pub struct StreamView {
    pub session_id: u128,
    pub state: StreamState,
    pub chunks: Map<u64, Seq<char>>,
    pub total_chunks: Option<u64>,
    pub last_activity: u128,
    pub retransmit_count: u64,
}

#[derive(Debug)]
pub struct StreamSession {
    pub session_id: u128,
    pub state: StreamState,
    chunks: Vec<ChunkSlot>,
    total_chunks: Option<u64>,
    opened_at: std::time::Instant,
    last_activity: u128,
    pub retransmit_count: u64,
}

/// The length in bytes of a text's UTF-8 encoding, as `str::len` gives it.
pub open spec fn utf8_len(s: Seq<char>) -> nat {
    (encode_utf8(s).len() as usize) as nat
}

/// The chunks of a list of slots by index; a later slot for an index
/// stands over an earlier one.
pub open spec fn slots_map(s: Seq<(u64, Seq<char>)>) -> Map<u64, Seq<char>>
    decreases s.len(),
{
    if s.len() == 0 {
        Map::empty()
    } else {
        slots_map(s.drop_last()).insert(s.last().0, s.last().1)
    }
}

pub open spec fn distinct_indices(s: Seq<(u64, Seq<char>)>) -> bool {
    forall|i: int, j: int| 0 <= i < j < s.len() ==> s[i].0 != s[j].0
}

closed spec fn slots_model(v: Seq<ChunkSlot>) -> Seq<(u64, Seq<char>)> {
    v.map_values(|c: ChunkSlot| (c.index, c.payload@))
}

impl View for StreamSession {
    type V = StreamView;

    closed spec fn view(&self) -> StreamView {
        StreamView {
            session_id: self.session_id,
            state: self.state,
            chunks: slots_map(slots_model(self.chunks@)),
            total_chunks: self.total_chunks,
            last_activity: self.last_activity,
            retransmit_count: self.retransmit_count,
        }
    }
}

/// The indices below `n` that have no chunk, in ascending order.
pub open spec fn missing_below(chunks: Map<u64, Seq<char>>, n: nat) -> Seq<u64>
    decreases n,
{
    if n == 0 {
        Seq::empty()
    } else {
        let rest = missing_below(chunks, (n - 1) as nat);
        if chunks.dom().contains((n - 1) as u64) {
            rest
        } else {
            rest.push((n - 1) as u64)
        }
    }
}

/// The chunks below `n` put together in index order.
pub open spec fn text_below(chunks: Map<u64, Seq<char>>, n: nat) -> Seq<char>
    decreases n,
{
    if n == 0 {
        Seq::empty()
    } else {
        text_below(chunks, (n - 1) as nat) + chunks[(n - 1) as u64]
    }
}

/// The indices below the announced number of chunks that have none; none
/// while that number is unknown.
pub open spec fn missing(v: StreamView) -> Seq<u64> {
    match v.total_chunks {
        Some(t) => missing_below(v.chunks, t as nat),
        None => Seq::empty(),
    }
}

/// The text of a session: refused while the number of chunks is unknown or
/// a chunk below it is missing.
pub open spec fn reassembled(v: StreamView) -> Result<Seq<char>, Seq<char>> {
    match v.total_chunks {
        None => Err("stream_unknown_length"@),
        Some(t) => if missing(v).len() > 0 {
            Err("stream_missing_chunk"@)
        } else {
            Ok(text_below(v.chunks, t as nat))
        },
    }
}

/// A session after a chunk arrives at `now`, and the answer. A chunk whose
/// index was taken before is answered `Ok` and changes nothing.
pub open spec fn accepted(v: StreamView, c: ChunkView, now: u128) -> (StreamView, Result<(), Seq<char>>) {
    if v.state != StreamState::Open {
        (v, Err("stream_not_open"@))
    } else if c.session_id != v.session_id {
        (v, Err("stream_session_mismatch"@))
    } else if v.chunks.dom().contains(c.chunk_index) {
        (v, Ok(()))
    } else if c.byte_length != utf8_len(c.payload) {
        (v, Err("stream_chunk_length_mismatch"@))
    } else {
        (
            StreamView {
                chunks: v.chunks.insert(c.chunk_index, c.payload),
                total_chunks: if c.total_chunks is Some {
                    c.total_chunks
                } else {
                    v.total_chunks
                },
                last_activity: now,
                ..v
            },
            Ok(()),
        )
    }
}

pub open spec fn unit_result(r: Result<(), String>) -> Result<(), Seq<char>> {
    match r {
        Ok(()) => Ok(()),
        Err(e) => Err(e@),
    }
}

pub open spec fn text_result(r: Result<String, String>) -> Result<Seq<char>, Seq<char>> {
    match r {
        Ok(s) => Ok(s@),
        Err(e) => Err(e@),
    }
}

/// Nanoseconds without a chunk at `now`: none if the clock reads earlier
/// than the last chunk.
pub open spec fn idle_for(v: StreamView, now: u128) -> int {
    if now >= v.last_activity {
        now - v.last_activity
    } else {
        0
    }
}

/// Whole milliseconds in `nanos` nanoseconds.
pub open spec fn whole_millis(nanos: u128) -> u128 {
    nanos / 1_000_000
}

/// Whether longer than `limit` nanoseconds have passed at `now` since the
/// last chunk.
pub open spec fn idle_past(v: StreamView, now: u128, limit: u128) -> bool {
    idle_for(v, now) > limit
}

proof fn lemma_slots_map(s: Seq<(u64, Seq<char>)>)
    requires
        distinct_indices(s),
    ensures
        forall|k: u64| #[trigger]
            slots_map(s).dom().contains(k) <==> exists|i: int| 0 <= i < s.len() && #[trigger] s[i].0 == k,
        forall|i: int| 0 <= i < s.len() ==> #[trigger] slots_map(s)[s[i].0] == s[i].1,
    decreases s.len(),
{
    if s.len() > 0 {
        let t = s.drop_last();
        let last = s.last();
        assert(distinct_indices(t)) by {
            assert forall|i: int, j: int| 0 <= i < j < t.len() implies t[i].0 != t[j].0 by {
                assert(t[i] == s[i] && t[j] == s[j]);
            }
        }
        lemma_slots_map(t);
        assert(slots_map(s) == slots_map(t).insert(last.0, last.1));
        assert forall|k: u64| #[trigger] slots_map(s).dom().contains(k) <==> exists|i: int|
            0 <= i < s.len() && #[trigger] s[i].0 == k by {
            if slots_map(s).dom().contains(k) {
                if k == last.0 {
                    assert(s[s.len() - 1].0 == k);
                } else {
                    assert(slots_map(t).dom().contains(k));
                    let i = choose|i: int| 0 <= i < t.len() && #[trigger] t[i].0 == k;
                    assert(s[i].0 == k);
                }
            }
            if exists|i: int| 0 <= i < s.len() && #[trigger] s[i].0 == k {
                let i = choose|i: int| 0 <= i < s.len() && #[trigger] s[i].0 == k;
                if i < s.len() - 1 {
                    assert(t[i].0 == k);
                    assert(slots_map(t).dom().contains(k));
                }
            }
        }
        assert forall|i: int| 0 <= i < s.len() implies #[trigger] slots_map(s)[s[i].0] == s[i].1 by {
            if i < s.len() - 1 {
                assert(t[i] == s[i]);
                assert(s[i].0 != last.0);
                assert(slots_map(t)[t[i].0] == t[i].1);
            }
        }
    } else {
        assert forall|k: u64| #[trigger] slots_map(s).dom().contains(k) <==> exists|i: int|
            0 <= i < s.len() && #[trigger] s[i].0 == k by {
        }
    }
}

proof fn lemma_missing_empty(chunks: Map<u64, Seq<char>>, n: nat, k: nat)
    requires
        missing_below(chunks, n).len() == 0,
        k < n,
        n <= u64::MAX + 1,
    ensures
        chunks.dom().contains(k as u64),
    decreases n,
{
    if n > 0 {
        let rest = missing_below(chunks, (n - 1) as nat);
        if !chunks.dom().contains((n - 1) as u64) {
            assert(missing_below(chunks, n).len() == rest.len() + 1);
        }
        if k < n - 1 {
            lemma_missing_empty(chunks, (n - 1) as nat, k);
        }
    }
}

/// A chunk that arrives again is answered `Ok` and changes nothing.
pub proof fn law_replayed_chunk_changes_nothing(v: StreamView, c: ChunkView, first: u128, again: u128)
    requires
        accepted(v, c, first).1 is Ok,
    ensures
        accepted(accepted(v, c, first).0, c, again) == (accepted(v, c, first).0, Ok::<(), Seq<char>>(())),
{
}

/// Two chunks of one session with different indices, taken in either
/// order, leave the same chunks and the same announced count (where both
/// announce the same count, or one announces none).
pub proof fn law_arrival_order_irrelevant(v: StreamView, a: ChunkView, b: ChunkView, t1: u128, t2: u128)
    requires
        a.chunk_index != b.chunk_index,
        a.total_chunks is Some && b.total_chunks is Some ==> a.total_chunks == b.total_chunks,
    ensures
        ({
            let ab = accepted(accepted(v, a, t1).0, b, t2);
            let ba = accepted(accepted(v, b, t1).0, a, t2);
            &&& ab.0.chunks == ba.0.chunks
            &&& ab.0.total_chunks == ba.0.total_chunks
            &&& (ab.1 is Ok && accepted(v, a, t1).1 is Ok) == (ba.1 is Ok && accepted(v, b, t1).1 is Ok)
        }),
{
    let ab = accepted(accepted(v, a, t1).0, b, t2);
    let ba = accepted(accepted(v, b, t1).0, a, t2);
    if v.state == StreamState::Open && a.session_id == v.session_id && b.session_id == v.session_id {
        assert(ab.0.chunks =~= ba.0.chunks);
    }
}

/// A session after the chunks of `cs` arrive in that order at `now`.
pub open spec fn accept_all(v: StreamView, cs: Seq<ChunkView>, now: u128) -> StreamView
    decreases cs.len(),
{
    if cs.len() == 0 {
        v
    } else {
        accepted(accept_all(v, cs.drop_last(), now), cs.last(), now).0
    }
}

/// Chunks of the session `v` with their byte lengths right and indices
/// that neither repeat nor are taken yet.
pub open spec fn fresh_chunks(v: StreamView, cs: Seq<ChunkView>) -> bool {
    &&& forall|i: int|
        0 <= i < cs.len() ==> (#[trigger] cs[i]).session_id == v.session_id && cs[i].byte_length
            == utf8_len(cs[i].payload) && !v.chunks.dom().contains(cs[i].chunk_index)
    &&& forall|i: int, j: int|
        0 <= i < j < cs.len() ==> (#[trigger] cs[i]).chunk_index != (#[trigger] cs[j]).chunk_index
}

/// Reassembly does not depend on arrival order: an open session that is
/// given fresh chunks in any order holds exactly those chunks, each under
/// its index, besides the ones it held, and stays open.
pub proof fn law_chunks_taken_whatever_the_order(v: StreamView, cs: Seq<ChunkView>, now: u128)
    requires
        v.state == StreamState::Open,
        fresh_chunks(v, cs),
    ensures
        accept_all(v, cs, now).state == StreamState::Open,
        accept_all(v, cs, now).session_id == v.session_id,
        forall|k: u64| #[trigger]
            accept_all(v, cs, now).chunks.dom().contains(k) <==> (v.chunks.dom().contains(k)
                || exists|i: int| 0 <= i < cs.len() && #[trigger] cs[i].chunk_index == k),
        forall|i: int|
            0 <= i < cs.len() ==> accept_all(v, cs, now).chunks[#[trigger] cs[i].chunk_index]
                == cs[i].payload,
        forall|k: u64|
            v.chunks.dom().contains(k) ==> #[trigger] accept_all(v, cs, now).chunks[k]
                == v.chunks[k],
    decreases cs.len(),
{
    if cs.len() > 0 {
        let t = cs.drop_last();
        let c = cs.last();
        assert(fresh_chunks(v, t)) by {
            assert forall|i: int| 0 <= i < t.len() implies (#[trigger] t[i]).session_id
                == v.session_id && t[i].byte_length == utf8_len(t[i].payload)
                && !v.chunks.dom().contains(t[i].chunk_index) by {
                assert(t[i] == cs[i]);
            }
            assert forall|i: int, j: int| 0 <= i < j < t.len() implies (#[trigger] t[i]).chunk_index
                != (#[trigger] t[j]).chunk_index by {
                assert(t[i] == cs[i] && t[j] == cs[j]);
            }
        }
        law_chunks_taken_whatever_the_order(v, t, now);
        let w = accept_all(v, t, now);
        assert(cs[cs.len() - 1] == c);
        assert(!w.chunks.dom().contains(c.chunk_index)) by {
            if w.chunks.dom().contains(c.chunk_index) {
                if !v.chunks.dom().contains(c.chunk_index) {
                    let i = choose|i: int| 0 <= i < t.len() && #[trigger] t[i].chunk_index
                        == c.chunk_index;
                    assert(cs[i] == t[i]);
                    assert(cs[i].chunk_index != cs[cs.len() - 1].chunk_index);
                }
            }
        }
        let r = accept_all(v, cs, now);
        assert(r == accepted(w, c, now).0);
        assert forall|k: u64| #[trigger] r.chunks.dom().contains(k) <==> (v.chunks.dom().contains(k)
            || exists|i: int| 0 <= i < cs.len() && #[trigger] cs[i].chunk_index == k) by {
            if exists|i: int| 0 <= i < t.len() && #[trigger] t[i].chunk_index == k {
                let i = choose|i: int| 0 <= i < t.len() && #[trigger] t[i].chunk_index == k;
                assert(cs[i] == t[i]);
            }
            if exists|i: int| 0 <= i < cs.len() && #[trigger] cs[i].chunk_index == k {
                let i = choose|i: int| 0 <= i < cs.len() && #[trigger] cs[i].chunk_index == k;
                if i < t.len() {
                    assert(t[i] == cs[i]);
                }
            }
        }
        assert forall|i: int| 0 <= i < cs.len() implies r.chunks[#[trigger] cs[i].chunk_index]
            == cs[i].payload by {
            if i < t.len() {
                assert(t[i] == cs[i]);
                assert(cs[i].chunk_index != c.chunk_index);
            }
        }
    }
}

/// The missing indices below `n` are exactly those without a chunk, each
/// once, in ascending order.
pub proof fn law_missing_lists_exactly_the_gaps(chunks: Map<u64, Seq<char>>, n: nat)
    requires
        n <= u64::MAX + 1,
    ensures
        forall|k: int|
            0 <= k < missing_below(chunks, n).len() ==> (#[trigger] missing_below(chunks, n)[k]) < n
                && !chunks.dom().contains(missing_below(chunks, n)[k]),
        forall|j: int, k: int|
            0 <= j < k < missing_below(chunks, n).len() ==> (#[trigger] missing_below(chunks, n)[j])
                < (#[trigger] missing_below(chunks, n)[k]),
        forall|x: u64|
            x < n && !chunks.dom().contains(x) ==> #[trigger] missing_below(chunks, n).contains(x),
    decreases n,
{
    if n > 0 {
        let m = (n - 1) as nat;
        law_missing_lists_exactly_the_gaps(chunks, m);
        let rest = missing_below(chunks, m);
        let all = missing_below(chunks, n);
        assert forall|x: u64| x < n && !chunks.dom().contains(x) implies #[trigger] all.contains(x) by {
            if x < m {
                assert(rest.contains(x));
                let i = choose|i: int| 0 <= i < rest.len() && rest[i] == x;
                assert(all[i] == x);
            } else {
                assert(all[all.len() - 1] == x);
            }
        }
    }
}

impl StreamSession {
    /// Indices of stored chunks are distinct.
    pub closed spec fn wf(&self) -> bool {
        distinct_indices(slots_model(self.chunks@))
    }

    /// An open session with no chunks, a fresh random id, expecting
    /// `total_chunks` chunks where that is known.
    pub fn new(total_chunks: Option<u64>) -> (r: Self)
        ensures
            r.wf(),
            r@.state == StreamState::Open,
            r@.chunks == Map::<u64, Seq<char>>::empty(),
            r@.total_chunks == total_chunks,
            r@.last_activity == 0,
            r@.retransmit_count == 0,
    {
        let r = StreamSession {
            session_id: new_message_id(),
            state: StreamState::Open,
            chunks: Vec::new(),
            total_chunks,
            opened_at: instant_now(),
            last_activity: 0,
            retransmit_count: 0,
        };
        assert(slots_model(r.chunks@) =~= Seq::<(u64, Seq<char>)>::empty());
        r
    }

    /// Nanoseconds since the session was opened.
    pub fn now(&self) -> u128 {
        nanos_since(&self.opened_at)
    }

    fn find_slot(&self, index: u64) -> (r: Option<usize>)
        requires
            self.wf(),
        ensures
            match r {
                Some(i) => i < self.chunks@.len() && self.chunks@[i as int].index == index,
                None => forall|i: int|
                    0 <= i < self.chunks@.len() ==> (#[trigger] self.chunks@[i]).index != index,
            },
            r is Some <==> self@.chunks.dom().contains(index),
            r matches Some(i) ==> self@.chunks[index] == self.chunks@[i as int].payload@,
    {
        proof {
            lemma_slots_map(slots_model(self.chunks@));
        }
        let mut i: usize = 0;
        while i < self.chunks.len()
            invariant
                self.wf(),
                i <= self.chunks@.len(),
                forall|m: int| 0 <= m < i ==> (#[trigger] self.chunks@[m]).index != index,
            decreases self.chunks@.len() - i,
        {
            if self.chunks[i].index == index {
                proof {
                    let m = slots_model(self.chunks@);
                    lemma_slots_map(m);
                    assert(m[i as int].0 == index);
                    assert(slots_map(m)[m[i as int].0] == m[i as int].1);
                }
                return Some(i);
            }
            i = i + 1;
        }
        proof {
            if self@.chunks.dom().contains(index) {
                let j = choose|j: int|
                    0 <= j < slots_model(self.chunks@).len() && #[trigger] slots_model(
                        self.chunks@,
                    )[j].0 == index;
                assert(self.chunks@[j].index == index);
            }
        }
        None
    }

    /// Takes a chunk now.
    pub fn accept_chunk(&mut self, chunk: StreamChunk) -> (r: Result<(), String>)
        requires
            old(self).wf(),
        ensures
            final(self).wf(),
            exists|now: u128| #[trigger]
                accepted(old(self)@, chunk@, now) == (final(self)@, unit_result(r)),
    {
        let now = self.now();
        self.accept_chunk_at(chunk, now)
    }

    /// Takes a chunk at `now`.
    pub fn accept_chunk_at(&mut self, chunk: StreamChunk, now: u128) -> (r: Result<(), String>)
        requires
            old(self).wf(),
        ensures
            final(self).wf(),
            accepted(old(self)@, chunk@, now) == (final(self)@, unit_result(r)),
    {
        if self.state != StreamState::Open {
            return Err(owned("stream_not_open"));
        }
        if chunk.session_id != self.session_id {
            return Err(owned("stream_session_mismatch"));
        }
        if self.find_slot(chunk.chunk_index).is_some() {
            return Ok(());
        }
        if chunk.byte_length != chunk.payload.as_str().len() {
            return Err(owned("stream_chunk_length_mismatch"));
        }
        if chunk.total_chunks.is_some() {
            self.total_chunks = chunk.total_chunks;
        }
        let ghost before = slots_model(self.chunks@);
        let index = chunk.chunk_index;
        self.chunks.push(ChunkSlot { index, payload: chunk.payload });
        self.last_activity = now;
        proof {
            let after = slots_model(self.chunks@);
            assert(after.drop_last() =~= before);
            assert(after.last() == (index, chunk@.payload));
            assert forall|i: int, j: int| 0 <= i < j < after.len() implies after[i].0
                != after[j].0 by {
                if j == after.len() - 1 {
                    assert(self.chunks@[i].index != index);
                } else {
                    assert(after[i] == before[i] && after[j] == before[j]);
                }
            }
        }
        Ok(())
    }

    /// The indices below the announced number of chunks that are still
    /// missing, in ascending order; none while that number is unknown.
    pub fn missing_chunks(&self) -> (r: Vec<u64>)
        requires
            self.wf(),
        ensures
            r@ == missing(self@),
    {
        let total = match self.total_chunks {
            Some(t) => t,
            None => {
                return Vec::new();
            },
        };
        let mut out: Vec<u64> = Vec::new();
        let mut i: u64 = 0;
        while i < total
            invariant
                self.wf(),
                i <= total,
                self@.total_chunks == Some(total),
                out@ == missing_below(self@.chunks, i as nat),
            decreases total - i,
        {
            if self.find_slot(i).is_none() {
                out.push(i);
            }
            i = i + 1;
        }
        out
    }

    /// The text of the session: the chunks below the announced number put
    /// together in index order.
    pub fn reassemble_text(&self) -> (r: Result<String, String>)
        requires
            self.wf(),
        ensures
            text_result(r) == reassembled(self@),
    {
        let total = match self.total_chunks {
            Some(t) => t,
            None => {
                return Err(owned("stream_unknown_length"));
            },
        };
        let missing = self.missing_chunks();
        if missing.len() > 0 {
            return Err(owned("stream_missing_chunk"));
        }
        let mut output = String::new();
        let mut i: u64 = 0;
        while i < total
            invariant
                self.wf(),
                i <= total,
                self@.total_chunks == Some(total),
                missing_below(self@.chunks, total as nat).len() == 0,
                output@ == text_below(self@.chunks, i as nat),
            decreases total - i,
        {
            proof {
                lemma_missing_empty(self@.chunks, total as nat, i as nat);
            }
            let found = self.find_slot(i);
            match found {
                Some(k) => {
                    output.append(self.chunks[k].payload.as_str());
                },
                None => {},
            }
            i = i + 1;
        }
        Ok(output)
    }

    /// Closes the session as cancelled.
    pub fn cancel(&mut self)
        ensures
            final(self)@ == (StreamView { state: StreamState::Cancelled, ..old(self)@ }),
            final(self).wf() == old(self).wf(),
    {
        self.state = StreamState::Cancelled;
    }

    /// Closes the session as failed.
    pub fn mark_error(&mut self)
        ensures
            final(self)@ == (StreamView { state: StreamState::Error, ..old(self)@ }),
            final(self).wf() == old(self).wf(),
    {
        self.state = StreamState::Error;
    }

    /// Closes the session as ended.
    pub fn end(&mut self)
        ensures
            final(self)@ == (StreamView { state: StreamState::Ended, ..old(self)@ }),
            final(self).wf() == old(self).wf(),
    {
        self.state = StreamState::Ended;
    }

    /// Whether longer than `timeout` has passed, now, since the last chunk
    /// was taken (or since the session opened). For a timeout of `ms`
    /// milliseconds the limit is `ms` million nanoseconds.
    pub fn timed_out(&self, timeout: std::time::Duration) -> (r: bool)
        ensures
            exists|now: u128, limit: u128| #[trigger] idle_past(self@, now, limit) == r,
            forall|ms: u64|
                timeout == #[trigger] millis_span(ms) ==> exists|now: u128|
                    #[trigger] idle_past(self@, now, (ms * 1_000_000) as u128) == r,
    {
        let now = self.now();
        let limit = duration_nanos(&timeout);
        let r = self.timed_out_at(now, limit);
        proof {
            assert forall|ms: u64| timeout == #[trigger] millis_span(ms) implies exists|n: u128|
                #[trigger] idle_past(self@, n, (ms * 1_000_000) as u128) == r by {
                assert(limit == ms * 1_000_000);
                assert(idle_past(self@, now, (ms * 1_000_000) as u128) == r);
            }
        }
        r
    }

    /// Whether, at `now`, longer than `timeout_nanos` nanoseconds have
    /// passed since the last chunk was taken.
    pub fn timed_out_at(&self, now: u128, timeout_nanos: u128) -> (r: bool)
        ensures
            r == idle_past(self@, now, timeout_nanos),
    {
        let idle: u128 = if now >= self.last_activity {
            now - self.last_activity
        } else {
            0
        };
        idle > timeout_nanos
    }

    /// Whole milliseconds since the session opened.
    pub fn reassembly_delay_ms(&self) -> (r: u128)
        ensures
            exists|now: u128| #[trigger] whole_millis(now) == r,
    {
        let now = self.now();
        assert(whole_millis(now) == now / 1_000_000);
        now / 1_000_000
    }
}

} // verus!
