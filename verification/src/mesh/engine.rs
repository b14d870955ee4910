//! The mesh engine: this node's identity, the peers it knows, the
//! transports it can use, the messages it has seen and its rate limits,
//! and the decisions it takes when it sends and receives envelopes.
//!
//! Times are nanoseconds since the engine was made.
use crate::mesh::envelope::{
    envelope_size, json_str, new_envelope, now_rfc3339, push_json_str, validation, EnvelopeView,
    PayloadType, ProtocolEnvelope,
};
use crate::mesh::identity::{
    endpoints_view, http_peer, listed_view, opt_view, owned, role_capability, strings_view,
    stub_peer, ConnectivityPolicy, ConnectivityPolicyView, MeshPeer, NodeIdentity,
    NodeIdentityView, NodeRole, PeerIdentity, PeerIdentityView, PeerTelemetry, RegisterPeerRequest,
    RegisterPeerRequestView, TransportEndpoint, TransportEndpointView,
};
use crate::mesh::peer_registry::{peer_views, PeerRegistry};
use crate::mesh::rate_limit::{inbound_decision, outbound_decision, LimiterView, RateLane, RateLimiter};
use crate::mesh::transport::{
    transport_answer, MeshTransport, TransportCapacity, TransportError, TransportReceipt,
};
use crate::platform::{instant_now, nanos_since};
use crate::text::{
    blank, is_blank, lemma_text_lt_total, lemma_text_lt_transitive, str_eq, str_lt, text_lt, trim,
    trim_end_char, trim_end_char_str, trim_str,
};
use vstd::prelude::*;

verus! {

broadcast use vstd::string::group_string_axioms;

/// At most this many message ids are remembered, once older ones are let go.
pub const SEEN_MESSAGE_LIMIT: usize = 1024;

/// A message id is remembered for two minutes, in nanoseconds.
pub const SEEN_MESSAGE_TTL_NANOS: u128 = 120_000_000_000;

/* Lanes and escalation. */

/// Stream chunks draw on the stream lane, everything else on the control
/// lane.
pub open spec fn lane_of(message_type: Seq<char>) -> RateLane {
    if message_type == "stream.chunk"@ {
        RateLane::Stream
    } else {
        RateLane::Control
    }
}

pub fn lane_for_message(message_type: &str) -> (r: RateLane)
    ensures
        r == lane_of(message_type@),
{
    if str_eq(message_type, "stream.chunk") {
        RateLane::Stream
    } else {
        RateLane::Control
    }
}

/// How hard to back off from a peer, from its round trip time (none
/// measured counts as zero), dropped messages and queue depth.
pub open spec fn escalation(t: PeerTelemetry) -> Seq<char> {
    let rtt = match t.rtt_ms {
        Some(x) => x,
        None => 0,
    };
    if rtt > 500 || t.dropped_messages > 8 {
        "fail_safe"@
    } else if rtt > 240 || t.queue_depth > 32 {
        "degrade"@
    } else if rtt > 120 || t.queue_depth > 16 {
        "throttle"@
    } else if rtt > 80 {
        "warn"@
    } else {
        "normal"@
    }
}

pub fn escalation_state(peer: &PeerIdentity) -> (r: String)
    ensures
        r@ == escalation(peer@.telemetry),
{
    let rtt: u128 = match peer.telemetry.rtt_ms {
        Some(x) => x,
        None => 0,
    };
    if rtt > 500 || peer.telemetry.dropped_messages > 8 {
        owned("fail_safe")
    } else if rtt > 240 || peer.telemetry.queue_depth > 32 {
        owned("degrade")
    } else if rtt > 120 || peer.telemetry.queue_depth > 16 {
        owned("throttle")
    } else if rtt > 80 {
        owned("warn")
    } else {
        owned("normal")
    }
}

/* Seen messages. */

/// Nanoseconds from `at` to `now`, none if `now` is earlier.
pub open spec fn since(at: u128, now: u128) -> int {
    if now >= at {
        now - at
    } else {
        0
    }
}

/// The remembered ids at `now` once the oldest are let go: from the front,
/// an entry goes while it is older than the ttl or more than the limit
/// are remembered.
pub open spec fn pruned(seen: Seq<(u128, u128)>, now: u128) -> Seq<(u128, u128)>
    decreases seen.len(),
{
    if seen.len() == 0 {
        seen
    } else if since(seen[0].1, now) <= SEEN_MESSAGE_TTL_NANOS && seen.len() <= SEEN_MESSAGE_LIMIT {
        seen
    } else {
        pruned(seen.drop_first(), now)
    }
}

pub open spec fn remembers(seen: Seq<(u128, u128)>, id: u128) -> bool {
    exists|i: int| 0 <= i < seen.len() && #[trigger] seen[i].0 == id
}

/// The remembered ids after `id` is seen at `now`, and whether it was seen
/// before: an id not remembered is added with its time.
pub open spec fn mark_seen_spec(seen: Seq<(u128, u128)>, id: u128, now: u128) -> (Seq<(u128, u128)>, bool) {
    let p = pruned(seen, now);
    if remembers(p, id) {
        (p, true)
    } else {
        (p.push((id, now)), false)
    }
}

fn mark_seen_in(seen: &mut Vec<(u128, u128)>, id: u128, now: u128) -> (r: bool)
    ensures
        (final(seen)@, r) == mark_seen_spec(old(seen)@, id, now),
{
    while seen.len() > 0
        invariant
            pruned(seen@, now) == pruned(old(seen)@, now),
        ensures
            pruned(seen@, now) == pruned(old(seen)@, now),
            seen@.len() == 0 || (since(seen@[0].1, now) <= SEEN_MESSAGE_TTL_NANOS && seen@.len()
                <= SEEN_MESSAGE_LIMIT),
        decreases seen@.len(),
    {
        let at = seen[0].1;
        let elapsed: u128 = if now >= at {
            now - at
        } else {
            0
        };
        if elapsed <= SEEN_MESSAGE_TTL_NANOS && seen.len() <= SEEN_MESSAGE_LIMIT {
            break ;
        }
        let ghost before = seen@;
        seen.remove(0);
        assert(seen@ =~= before.drop_first());
    }
    assert(pruned(seen@, now) == seen@);
    let mut i: usize = 0;
    while i < seen.len()
        invariant
            i <= seen@.len(),
            seen@ == pruned(old(seen)@, now),
            forall|k: int| 0 <= k < i ==> (#[trigger] seen@[k]).0 != id,
        decreases seen@.len() - i,
    {
        if seen[i].0 == id {
            assert(remembers(seen@, id));
            return true;
        }
        i = i + 1;
    }
    seen.push((id, now));
    false
}

/// Replay: an id just seen for the first time is known again at any time
/// up to the ttl later (or earlier on the clock).
pub proof fn law_replay_is_detected(seen: Seq<(u128, u128)>, id: u128, first: u128, again: u128)
    requires
        !mark_seen_spec(seen, id, first).1,
        since(first, again) <= SEEN_MESSAGE_TTL_NANOS,
    ensures
        mark_seen_spec(mark_seen_spec(seen, id, first).0, id, again).1,
{
    let s = mark_seen_spec(seen, id, first).0;
    lemma_pruned_keeps_last(s, again);
    let p = pruned(s, again);
    assert(p[p.len() - 1].0 == id);
}

/// Pruning keeps the last entry when it is young enough, and what it keeps
/// is a tail of the entries.
proof fn lemma_pruned_keeps_last(s: Seq<(u128, u128)>, now: u128)
    requires
        s.len() > 0,
        since(s[s.len() - 1].1, now) <= SEEN_MESSAGE_TTL_NANOS,
    ensures
        pruned(s, now).len() > 0,
        pruned(s, now)[pruned(s, now).len() - 1] == s[s.len() - 1],
    decreases s.len(),
{
    if since(s[0].1, now) <= SEEN_MESSAGE_TTL_NANOS && s.len() <= SEEN_MESSAGE_LIMIT {
    } else if s.len() == 1 {
    } else {
        let t = s.drop_first();
        assert(t[t.len() - 1] == s[s.len() - 1]);
        lemma_pruned_keeps_last(t, now);
    }
}

/// Pruning keeps at most the limit, plus one newly added.
proof fn lemma_pruned_len(s: Seq<(u128, u128)>, now: u128)
    ensures
        pruned(s, now).len() <= s.len(),
        pruned(s, now).len() <= SEEN_MESSAGE_LIMIT,
    decreases s.len(),
{
    if s.len() > 0 && !(since(s[0].1, now) <= SEEN_MESSAGE_TTL_NANOS && s.len()
        <= SEEN_MESSAGE_LIMIT) {
        lemma_pruned_len(s.drop_first(), now);
    }
}

/// The memory of seen ids never holds more than the limit plus one.
pub proof fn law_seen_memory_is_bounded(seen: Seq<(u128, u128)>, id: u128, now: u128)
    ensures
        mark_seen_spec(seen, id, now).0.len() <= SEEN_MESSAGE_LIMIT + 1,
{
    lemma_pruned_len(seen, now);
}

/* Node capabilities. */

pub open spec fn ascending_texts(s: Seq<Seq<char>>) -> bool {
    forall|i: int, j: int| 0 <= i < j < s.len() ==> text_lt(#[trigger] s[i], #[trigger] s[j])
}

/// What a node of a role advertises: the four every node has, its role's,
/// publishing for bootstrap, coordinator and catalog nodes, relaying for
/// relay and coordinator nodes.
pub open spec fn node_capability_set(role: NodeRole) -> Set<Seq<char>> {
    let base = set!["mesh.control"@, "mesh.stream"@, "scene.layers"@, "catalog.consumer"@].insert(
        role_capability(role),
    );
    let publishing = match role {
        NodeRole::Bootstrap | NodeRole::Coordinator | NodeRole::Catalog => set![
            "catalog.publisher"@,
            "resource.suggest"@,
        ],
        _ => Set::empty(),
    };
    let relaying = match role {
        NodeRole::Relay | NodeRole::Coordinator => set!["mesh.relay"@],
        _ => Set::empty(),
    };
    base + publishing + relaying
}

/// Adds `c` to an ascending list of texts without repeats.
fn insert_text(v: &mut Vec<String>, c: &str)
    requires
        ascending_texts(strings_view(old(v)@)),
    ensures
        ascending_texts(strings_view(final(v)@)),
        strings_view(final(v)@).to_set() == strings_view(old(v)@).to_set().insert(c@),
{
    let ghost s = strings_view(v@);
    let mut i: usize = 0;
    while i < v.len() && str_lt(v[i].as_str(), c)
        invariant
            i <= v@.len(),
            s == strings_view(v@),
            forall|j: int| 0 <= j < i ==> text_lt(#[trigger] s[j], c@),
        decreases v@.len() - i,
    {
        i = i + 1;
    }
    if i < v.len() && str_eq(v[i].as_str(), c) {
        proof {
            assert(s.to_set().insert(c@) =~= s.to_set()) by {
                assert(s.to_set().contains(s[i as int]));
            }
        }
        return ;
    }
    proof {
        if (i as int) < s.len() {
            lemma_text_lt_total(s[i as int], c@);
        }
    }
    v.insert(i, owned(c));
    proof {
        let t = strings_view(v@);
        assert(t =~= s.insert(i as int, c@));
        assert forall|a: int, b: int| 0 <= a < b < t.len() implies text_lt(
            #[trigger] t[a],
            #[trigger] t[b],
        ) by {
            if a < i && b < i {
                assert(t[a] == s[a] && t[b] == s[b]);
            } else if a < i && b == i {
                assert(t[a] == s[a]);
            } else if a < i {
                assert(t[a] == s[a] && t[b] == s[b - 1]);
                if b - 1 > i {
                    assert(text_lt(s[i as int], s[b - 1]));
                    lemma_text_lt_transitive(c@, s[i as int], s[b - 1]);
                }
                lemma_text_lt_transitive(s[a], c@, s[b - 1]);
            } else if a == i {
                assert(t[b] == s[b - 1]);
                if b - 1 > i {
                    assert(text_lt(s[i as int], s[b - 1]));
                    lemma_text_lt_transitive(c@, s[i as int], s[b - 1]);
                }
            } else {
                assert(t[a] == s[a - 1] && t[b] == s[b - 1]);
            }
        }
        assert(t.to_set() =~= s.to_set().insert(c@)) by {
            assert forall|x: Seq<char>| t.to_set().contains(x) <==> s.to_set().insert(c@).contains(
                x,
            ) by {
                if t.to_set().contains(x) {
                    let k = choose|k: int| 0 <= k < t.len() && t[k] == x;
                    if k < i {
                        assert(s[k] == x);
                    } else if k > i {
                        assert(s[k - 1] == x);
                    }
                }
                if s.to_set().contains(x) {
                    let k = choose|k: int| 0 <= k < s.len() && s[k] == x;
                    if k < i {
                        assert(t[k] == x);
                    } else {
                        assert(t[k + 1] == x);
                    }
                }
                if x == c@ {
                    assert(t[i as int] == x);
                }
            }
        }
    }
}

/// The capabilities a node of `role` advertises, in ascending order,
/// without repeats.
pub fn node_capabilities(role: NodeRole) -> (r: Vec<String>)
    ensures
        ascending_texts(strings_view(r@)),
        strings_view(r@).to_set() == node_capability_set(role),
{
    let mut v: Vec<String> = Vec::new();
    proof {
        assert(strings_view(v@) =~= Seq::<Seq<char>>::empty());
    }
    insert_text(&mut v, "mesh.control");
    insert_text(&mut v, "mesh.stream");
    insert_text(&mut v, "scene.layers");
    insert_text(&mut v, "catalog.consumer");
    insert_text(&mut v, role.capability());
    match role {
        NodeRole::Bootstrap | NodeRole::Coordinator | NodeRole::Catalog => {
            insert_text(&mut v, "catalog.publisher");
            insert_text(&mut v, "resource.suggest");
        },
        _ => {},
    }
    match role {
        NodeRole::Relay | NodeRole::Coordinator => {
            insert_text(&mut v, "mesh.relay");
        },
        _ => {},
    }
    proof {
        assert(Seq::<Seq<char>>::empty().to_set() =~= Set::<Seq<char>>::empty());
        assert(strings_view(v@).to_set() =~= node_capability_set(role));
    }
    v
}

/* Registering peers. */

/// The transport a peer without an address is registered on: the one the
/// request names, else the kind of its first endpoint, else `unavailable`.
pub open spec fn requested_kind(req: RegisterPeerRequestView) -> Seq<char> {
    match req.transport {
        Some(k) => k,
        None => if req.transports.len() > 0 {
            req.transports[0].kind
        } else {
            "unavailable"@
        },
    }
}

/// The record a registration request makes, or why it is refused: the id
/// is trimmed and must not be empty; a non-blank address (trimmed, without
/// trailing slashes) makes an HTTP peer, otherwise a peer on the requested
/// transport; the request's non-blank display name, non-empty capability
/// and endpoint lists, profile, role (whose capability is added when
/// missing), policy and metadata then replace the defaults.
pub open spec fn requested_peer(req: RegisterPeerRequestView) -> Result<PeerIdentityView, Seq<char>> {
    let id = trim(req.id);
    if id.len() == 0 {
        Err("peer_id_required"@)
    } else {
        let url = match req.url {
            Some(u) => if trim(u).len() == 0 {
                None
            } else {
                Some(trim(u))
            },
            None => None,
        };
        let base = match url {
            Some(u) => http_peer(id, trim_end_char(u, '/')),
            None => stub_peer(id, requested_kind(req)),
        };
        let caps = if req.capabilities.len() > 0 {
            req.capabilities
        } else {
            base.capabilities
        };
        let role_caps = match req.role {
            Some(r) => if caps.contains(role_capability(r)) {
                caps
            } else {
                caps.push(role_capability(r))
            },
            None => caps,
        };
        Ok(
            PeerIdentityView {
                display_name: match req.display_name {
                    Some(d) => if is_blank(d) {
                        None
                    } else {
                        Some(d)
                    },
                    None => None,
                },
                capabilities: role_caps,
                transports: if req.transports.len() > 0 {
                    req.transports
                } else {
                    base.transports
                },
                transmission_profile: if req.transmission_profile is Some {
                    req.transmission_profile
                } else {
                    base.transmission_profile
                },
                role: match req.role {
                    Some(r) => r,
                    None => base.role,
                },
                connectivity_policy: match req.connectivity_policy {
                    Some(p) => p,
                    None => base.connectivity_policy,
                },
                metadata: req.metadata,
                ..base
            },
        )
    }
}

/// What a registration request asks for is what the peer gets: a request
/// is refused only for a blank id; otherwise the peer is known by the
/// trimmed id, is fresh (registered, no answer seen yet), and takes every
/// field the request sets: policy, role (whose capability it then
/// advertises), profile, endpoints, capabilities, a non-blank display name,
/// the metadata, and the address of a non-blank url.
pub proof fn law_request_fields_become_the_peer(req: RegisterPeerRequestView)
    ensures
        requested_peer(req) is Err <==> is_blank(req.id),
        requested_peer(req) is Err ==> requested_peer(req) == Err::<PeerIdentityView, Seq<char>>(
            "peer_id_required"@,
        ),
        requested_peer(req) matches Ok(p) ==> {
            &&& p.id == trim(req.id)
            &&& p.status == "registered"@
            &&& p.latency_ms is None && p.last_seen is None && p.last_transport is None
            &&& p.metadata == req.metadata
            &&& (req.connectivity_policy matches Some(c) ==> p.connectivity_policy == c)
            &&& (req.role matches Some(r) ==> p.role == r && p.capabilities.contains(
                role_capability(r),
            ))
            &&& (req.transmission_profile is Some ==> p.transmission_profile
                == req.transmission_profile)
            &&& (req.transports.len() > 0 ==> p.transports == req.transports)
            &&& (req.capabilities.len() > 0 ==> forall|k: int|
                0 <= k < req.capabilities.len() ==> p.capabilities[k] == req.capabilities[k])
            &&& (req.display_name matches Some(d) ==> !is_blank(d) ==> p.display_name == Some(d))
            &&& (req.url matches Some(u) ==> !is_blank(u) ==> p.url == Some(
                trim_end_char(trim(u), '/'),
            ))
        },
{
    if let Ok(p) = requested_peer(req) {
        if let Some(r) = req.role {
            let base_caps = if req.capabilities.len() > 0 {
                req.capabilities
            } else {
                match req.url {
                    Some(u) => if trim(u).len() == 0 {
                        stub_peer(trim(req.id), requested_kind(req)).capabilities
                    } else {
                        http_peer(trim(req.id), trim_end_char(trim(u), '/')).capabilities
                    },
                    None => stub_peer(trim(req.id), requested_kind(req)).capabilities,
                }
            };
            if !base_caps.contains(role_capability(r)) {
                assert(base_caps.push(role_capability(r))[base_caps.len() as int] == role_capability(r));
            }
        }
        reveal_strlit("registered");
    }
}

pub open spec fn peer_result(r: Result<PeerIdentity, String>) -> Result<PeerIdentityView, Seq<char>> {
    match r {
        Ok(p) => Ok(p@),
        Err(e) => Err(e@),
    }
}

fn contains_text(v: &Vec<String>, c: &str) -> (r: bool)
    ensures
        r == strings_view(v@).contains(c@),
{
    let mut i: usize = 0;
    while i < v.len()
        invariant
            i <= v@.len(),
            forall|k: int| 0 <= k < i ==> (#[trigger] v@[k])@ != c@,
        decreases v@.len() - i,
    {
        if str_eq(v[i].as_str(), c) {
            assert(strings_view(v@)[i as int] == c@);
            return true;
        }
        i = i + 1;
    }
    proof {
        if strings_view(v@).contains(c@) {
            let k = choose|k: int| 0 <= k < strings_view(v@).len() && strings_view(v@)[k] == c@;
            assert(v@[k]@ == c@);
        }
    }
    false
}

/// The record a registration request makes, or why it is refused.
pub fn peer_from_request(req: RegisterPeerRequest) -> (r: Result<PeerIdentity, String>)
    ensures
        peer_result(r) == requested_peer(req@),
{
    let ghost rv = req@;
    let RegisterPeerRequest {
        id,
        role,
        url,
        display_name,
        transport,
        transports,
        capabilities,
        transmission_profile,
        connectivity_policy,
        metadata,
    } = req;
    let id = trim_str(id.as_str());
    if id.as_str().is_empty() {
        return Err(owned("peer_id_required"));
    }
    let address: Option<String> = match &url {
        Some(u) => {
            let t = trim_str(u.as_str());
            if t.as_str().is_empty() {
                None
            } else {
                Some(t)
            }
        },
        None => None,
    };
    let mut peer = match address {
        Some(u) => PeerIdentity::registered_http(id, trim_end_char_str(u.as_str(), '/')),
        None => {
            let kind = match &transport {
                Some(k) => k.clone(),
                None => if transports.len() > 0 {
                    transports[0].kind.clone()
                } else {
                    owned("unavailable")
                },
            };
            PeerIdentity::registered_stub(id, kind)
        },
    };
    let ghost base = peer@;
    peer.display_name = match display_name {
        Some(d) => if blank(d.as_str()) {
            None
        } else {
            Some(d)
        },
        None => None,
    };
    if capabilities.len() > 0 {
        peer.capabilities = capabilities;
    }
    if transports.len() > 0 {
        peer.transports = transports;
    }
    if transmission_profile.is_some() {
        peer.transmission_profile = transmission_profile;
    }
    match role {
        Some(r) => {
            peer.role = r;
            if !contains_text(&peer.capabilities, r.capability()) {
                peer.capabilities.push(owned(r.capability()));
            }
        },
        None => {},
    }
    match connectivity_policy {
        Some(p) => {
            peer.connectivity_policy = p;
        },
        None => {},
    }
    peer.metadata = metadata;
    proof {
        let want = requested_peer(rv);
        assert(want is Ok);
        assert(peer@.capabilities =~= want->Ok_0.capabilities);
        assert(peer@ == want->Ok_0);
    }
    Ok(peer)
}

/* Choosing a transport. */

/// The first place from `i` on where `kinds` has `k`.
pub open spec fn kind_index(kinds: Seq<Seq<char>>, k: Seq<char>, i: int) -> Option<int>
    decreases kinds.len() - i,
{
    if i < 0 || i >= kinds.len() {
        None
    } else if kinds[i] == k {
        Some(i)
    } else {
        kind_index(kinds, k, i + 1)
    }
}

/// The transport of the first of the endpoints, from `j` on, whose kind
/// is registered.
pub open spec fn endpoint_choice(kinds: Seq<Seq<char>>, eps: Seq<TransportEndpointView>, j: int) -> Option<
    int,
>
    decreases eps.len() - j,
{
    if j < 0 || j >= eps.len() {
        None
    } else {
        match kind_index(kinds, eps[j].kind, 0) {
            Some(i) => Some(i),
            None => endpoint_choice(kinds, eps, j + 1),
        }
    }
}

/// The transport a peer is reached by: the first of its endpoints whose
/// kind is registered, else local HTTP for a peer with an address.
pub open spec fn selected_transport(kinds: Seq<Seq<char>>, peer: PeerIdentityView) -> Option<int> {
    match endpoint_choice(kinds, peer.transports, 0) {
        Some(i) => Some(i),
        None => if peer.url is Some {
            kind_index(kinds, "local_http"@, 0)
        } else {
            None
        },
    }
}

/// The registered kinds once a transport of kind `k` is registered: a
/// kind already there keeps its place (its transport is replaced).
pub open spec fn with_kind(kinds: Seq<Seq<char>>, k: Seq<char>) -> Seq<Seq<char>> {
    match kind_index(kinds, k, 0) {
        Some(_) => kinds,
        None => kinds.push(k),
    }
}

proof fn lemma_kind_index_skip(kinds: Seq<Seq<char>>, k: Seq<char>, i: int, j: int)
    requires
        0 <= i <= j <= kinds.len(),
        forall|m: int| i <= m < j ==> kinds[m] != k,
    ensures
        kind_index(kinds, k, i) == kind_index(kinds, k, j),
    decreases j - i,
{
    if i < j {
        lemma_kind_index_skip(kinds, k, i + 1, j);
    }
}

proof fn lemma_kind_index_none(kinds: Seq<Seq<char>>, k: Seq<char>, i: int)
    requires
        0 <= i,
        kind_index(kinds, k, i) is None,
    ensures
        forall|m: int| i <= m < kinds.len() ==> kinds[m] != k,
    decreases kinds.len() - i,
{
    if i < kinds.len() {
        lemma_kind_index_none(kinds, k, i + 1);
    }
}

proof fn lemma_kind_index_found(kinds: Seq<Seq<char>>, k: Seq<char>, i: int)
    requires
        0 <= i,
    ensures
        kind_index(kinds, k, i) matches Some(x) ==> i <= x < kinds.len() && kinds[x] == k,
    decreases kinds.len() - i,
{
    if i < kinds.len() && kinds[i] != k {
        lemma_kind_index_found(kinds, k, i + 1);
    }
}

proof fn lemma_endpoint_choice_skip(kinds: Seq<Seq<char>>, eps: Seq<TransportEndpointView>, i: int, j: int)
    requires
        0 <= i <= j <= eps.len(),
        forall|m: int| i <= m < j ==> #[trigger] kind_index(kinds, eps[m].kind, 0) is None,
    ensures
        endpoint_choice(kinds, eps, i) == endpoint_choice(kinds, eps, j),
    decreases j - i,
{
    if i < j {
        assert(kind_index(kinds, eps[i].kind, 0) is None);
        lemma_endpoint_choice_skip(kinds, eps, i + 1, j);
    }
}

/* The engine. */

/// The engine as a model: this node, the peers by id, the kinds of the
/// registered transports in the order they were first registered, the
/// remembered message ids with the time each was seen, and the limiter.
pub struct EngineView {
    pub node: NodeIdentityView,
    pub peers: Map<Seq<char>, PeerIdentityView>,
    pub transports: Seq<Seq<char>>,
    pub seen: Seq<(u128, u128)>,
    pub limiter: LimiterView,
}

struct Registered<T> {
    kind: String,
    transport: T,
}

pub struct MeshEngine<T: MeshTransport> {
    node: NodeIdentity,
    peers: PeerRegistry,
    transports: Vec<Registered<T>>,
    seen_messages: Vec<(u128, u128)>,
    limiter: RateLimiter,
    epoch: std::time::Instant,
    clock: u128,
}

/// What a send reports: the peer as it now stands.
#[derive(Debug)]
pub struct MeshSendOutcome {
    pub ok: bool,
    pub peer: PeerIdentity,
}

/// What a registered transport reports of itself.
#[derive(Debug)]
pub struct MeshTransportStatus {
    pub endpoint: TransportEndpoint,
    pub capacity: TransportCapacity,
    pub capabilities: Vec<String>,
}

spec fn kinds_of<T>(v: Seq<Registered<T>>) -> Seq<Seq<char>> {
    v.map_values(|r: Registered<T>| r.kind@)
}

impl<T: MeshTransport> View for MeshEngine<T> {
    type V = EngineView;

    closed spec fn view(&self) -> EngineView {
        EngineView {
            node: self.node@,
            peers: self.peers@,
            transports: kinds_of(self.transports@),
            seen: self.seen_messages@,
            limiter: self.limiter@,
        }
    }
}

pub open spec fn outcome_view(r: Result<MeshSendOutcome, String>) -> Result<(bool, PeerIdentityView), Seq<char>> {
    match r {
        Ok(o) => Ok((o.ok, o.peer@)),
        Err(e) => Err(e@),
    }
}

pub open spec fn index_view(r: Result<usize, String>) -> Result<int, Seq<char>> {
    match r {
        Ok(i) => Ok(i as int),
        Err(e) => Err(e@),
    }
}

pub open spec fn bool_view(r: Result<bool, String>) -> Result<bool, Seq<char>> {
    match r {
        Ok(b) => Ok(b),
        Err(e) => Err(e@),
    }
}

/// A peer after the limiter refused a message to it.
pub open spec fn throttled(p: PeerIdentityView) -> PeerIdentityView {
    PeerIdentityView {
        telemetry: PeerTelemetry {
            rate_limited_count: p.telemetry.rate_limited_count.wrapping_add(1),
            ..p.telemetry
        },
        escalation_state: "throttle"@,
        ..p
    }
}

/// A peer after its transport refused a message with `code`.
pub open spec fn failed(p: PeerIdentityView, code: Seq<char>) -> PeerIdentityView {
    PeerIdentityView {
        status: "offline: "@ + code,
        telemetry: PeerTelemetry {
            dropped_messages: p.telemetry.dropped_messages.wrapping_add(1),
            ..p.telemetry
        },
        escalation_state: "warn"@,
        last_transport: None,
        ..p
    }
}

/// A peer after its transport `via` took a message in `latency_ms`, at
/// the wall-clock time `seen_at`.
pub open spec fn delivered(p: PeerIdentityView, via: Seq<char>, latency_ms: u128, seen_at: Seq<char>) -> PeerIdentityView {
    let t = PeerTelemetry { rtt_ms: Some(latency_ms), ..p.telemetry };
    PeerIdentityView {
        status: "online"@,
        last_seen: Some(seen_at),
        latency_ms: Some(latency_ms),
        last_transport: Some(via),
        telemetry: t,
        escalation_state: escalation(t),
        ..p
    }
}

/// The checks before an envelope is handed to a transport, at `now`: the
/// envelope must be valid and not seen before, and the limiter must let
/// it go to the peer; then the peer's transport is chosen. A message the
/// limiter refuses marks the peer throttled.
pub open spec fn send_admission(
    before: EngineView,
    after: EngineView,
    e: EnvelopeView,
    peer: PeerIdentityView,
    now: u128,
    r: Result<int, Seq<char>>,
) -> bool {
    match validation(e) {
        Err(m) => after == before && r == Err::<int, Seq<char>>(m),
        Ok(()) => {
            let (seen, dup) = mark_seen_spec(before.seen, e.message_id, now);
            if dup {
                &&& after == EngineView { seen: seen, ..before }
                &&& r == Err::<int, Seq<char>>("duplicate_message"@)
            } else {
                exists|allowed: bool|
                    #[trigger] outbound_decision(
                        before.limiter,
                        after.limiter,
                        peer.id,
                        lane_of(e.message_type),
                        envelope_size(e),
                        now as int,
                        allowed,
                    ) && {
                        &&& after.node == before.node
                        &&& after.transports == before.transports
                        &&& after.seen == seen
                        &&& if !allowed {
                            &&& after.peers == before.peers.insert(peer.id, throttled(peer))
                            &&& r == Err::<int, Seq<char>>("peer_rate_limited"@)
                        } else {
                            &&& after.peers == before.peers
                            &&& r == match selected_transport(before.transports, peer) {
                                Some(i) => Ok(i),
                                None => Err("peer_transport_unavailable"@),
                            }
                        }
                    }
            }
        },
    }
}

/// What the transport answered: the kind it used, the latency and the
/// wall-clock time of the answer, or the code of its refusal.
pub open spec fn transport_outcome(
    result: Result<TransportReceipt, TransportError>,
    latency_ms: u128,
    seen_at: Seq<char>,
) -> Result<(Seq<char>, u128, Seq<char>), Seq<char>> {
    match result {
        Ok(receipt) => Ok((receipt.transport@, latency_ms, seen_at)),
        Err(e) => Err(e.code@),
    }
}

/// The engine and the answer once the transport has answered: the peer's
/// record is updated either way.
pub open spec fn finished(
    before: EngineView,
    peer: PeerIdentityView,
    out: Result<(Seq<char>, u128, Seq<char>), Seq<char>>,
) -> (EngineView, Result<(bool, PeerIdentityView), Seq<char>>) {
    match out {
        Ok((via, latency, seen_at)) => {
            let p = delivered(peer, via, latency, seen_at);
            (EngineView { peers: before.peers.insert(peer.id, p), ..before }, Ok((true, p)))
        },
        Err(code) => (
            EngineView { peers: before.peers.insert(peer.id, failed(peer, code)), ..before },
            Err(code),
        ),
    }
}

/// What the transport answered, as `finished` received it: the kind it
/// used, or the code of its refusal.
pub open spec fn answer_of(out: Result<(Seq<char>, u128, Seq<char>), Seq<char>>) -> Result<
    Seq<char>,
    Seq<char>,
> {
    match out {
        Ok((via, _, _)) => Ok(via),
        Err(code) => Err(code),
    }
}

/// Taking in an envelope at `now`: it must be valid and the limiter must
/// let it in from its source; an id seen before is answered `false`, and
/// an envelope whose hops have reached its ttl is refused.
pub open spec fn received(
    before: EngineView,
    after: EngineView,
    e: EnvelopeView,
    now: u128,
    r: Result<bool, Seq<char>>,
) -> bool {
    match validation(e) {
        Err(m) => after == before && r == Err::<bool, Seq<char>>(m),
        Ok(()) => exists|allowed: bool|
            #[trigger] inbound_decision(
                before.limiter,
                after.limiter,
                e.source_node_id,
                lane_of(e.message_type),
                envelope_size(e),
                now as int,
                allowed,
            ) && {
                &&& after.node == before.node
                &&& after.peers == before.peers
                &&& after.transports == before.transports
                &&& if !allowed {
                    &&& after.seen == before.seen
                    &&& r == Err::<bool, Seq<char>>("peer_rate_limited"@)
                } else {
                    let (seen, dup) = mark_seen_spec(before.seen, e.message_id, now);
                    &&& after.seen == seen
                    &&& r == if dup {
                        Ok(false)
                    } else if e.hop_count >= e.ttl {
                        Err("ttl_exhausted"@)
                    } else {
                        Ok(true)
                    }
                }
            },
    }
}

/// The JSON payload of a ping from `node_id`.
pub open spec fn ping_payload(node_id: Seq<char>) -> Seq<char> {
    "{\"message\":"@ + json_str("mesh ping from "@ + node_id) + "}"@
}

/// A ping envelope from `node_id` to `peer`, with some id, time and
/// checksum.
pub open spec fn is_ping(e: EnvelopeView, node_id: Seq<char>, peer: Seq<char>) -> bool {
    exists|id: u128, t: i128, dw: Seq<u8>|
        e == #[trigger] new_envelope(
            node_id,
            Some(peer),
            "core.ping"@,
            PayloadType::Json,
            ping_payload(node_id),
            id,
            t,
            dw,
        )
}

/// The node a new engine describes.
pub open spec fn new_node(
    node_id: Seq<char>,
    display_name: Option<Seq<char>>,
    role: NodeRole,
    policy: ConnectivityPolicyView,
    capabilities: Seq<Seq<char>>,
) -> NodeIdentityView {
    NodeIdentityView {
        node_id: node_id,
        role: role,
        display_name: display_name,
        capabilities: capabilities,
        connectivity_policy: policy,
        known_transports: Seq::empty(),
        last_seen: None,
        transmission_profile: None,
        metadata: "null"@,
    }
}

impl<T: MeshTransport> MeshEngine<T> {
    /// The transport registered at place `i`.
    pub closed spec fn transport_at(&self, i: int) -> T {
        self.transports@[i].transport
    }

    /// The engine's clock: the latest time, in nanoseconds since the engine
    /// was made, at which it acted. It never goes back.
    pub closed spec fn clock(&self) -> u128 {
        self.clock
    }

    /// The same transports, in the same places, as `other`.
    pub open spec fn keeps_transports(&self, other: &Self) -> bool {
        &&& self@.transports == other@.transports
        &&& forall|j: int|
            0 <= j < self@.transports.len() ==> #[trigger] self.transport_at(j) == other.transport_at(
                j,
            )
    }

    /// A whole send of `e` to `p`, leaving the engine as `after` and
    /// answering `r`: the checks at some time; then, where a transport was
    /// chosen, that transport was handed the envelope and the peer, and
    /// the peer's record and the answer follow from what it answered (for
    /// a transport that obeys its specification, the answer is one its
    /// `answers` allows). No other transport changes.
    pub open spec fn sent_by(
        &self,
        after: &Self,
        e: EnvelopeView,
        p: PeerIdentityView,
        r: Result<(bool, PeerIdentityView), Seq<char>>,
    ) -> bool {
        exists|now: u128, mid: EngineView, chosen: Result<int, Seq<char>>|
            #[trigger] send_admission(self@, mid, e, p, now, chosen) && self.clock() <= now
                && match chosen {
                Err(m) => after@ == mid && r == Err::<(bool, PeerIdentityView), Seq<char>>(m)
                    && after.keeps_transports(self) && after.clock() == now,
                Ok(i) => {
                    &&& 0 <= i < self@.transports.len()
                    &&& after@.transports == self@.transports
                    &&& forall|j: int|
                        0 <= j < self@.transports.len() && j != i ==> #[trigger] after.transport_at(j)
                            == self.transport_at(j)
                    &&& now <= after.clock()
                    &&& exists|out: Result<(Seq<char>, u128, Seq<char>), Seq<char>>|
                        #[trigger] finished(mid, p, out) == (after@, r) && (out matches Ok(
                            (_, latency, _),
                        ) ==> latency == (after.clock() - now) / 1_000_000) && (
                        self.transport_at(i).obeys_transport_spec() ==> after.transport_at(
                            i,
                        ).obeys_transport_spec() && self.transport_at(i).answers(
                            &after.transport_at(i),
                            e,
                            p,
                            answer_of(out),
                        ))
                },
            }
    }

    /// The known peers in ascending order of id.
    pub closed spec fn peer_listing(&self) -> Seq<PeerIdentityView> {
        self.peers.listing()
    }

    /// The listing holds each known peer once, in ascending order of id.
    pub proof fn lemma_peer_listing(&self)
        requires
            self.wf(),
        ensures
            crate::mesh::peer_registry::ids_ascending(self.peer_listing()),
            forall|i: int|
                0 <= i < self.peer_listing().len() ==> self@.peers.dom().contains(
                    #[trigger] self.peer_listing()[i].id,
                ) && self@.peers[self.peer_listing()[i].id] == self.peer_listing()[i],
            forall|k: Seq<char>| #[trigger]
                self@.peers.dom().contains(k) ==> exists|i: int|
                    0 <= i < self.peer_listing().len() && #[trigger] self.peer_listing()[i].id == k,
    {
        crate::mesh::peer_registry::law_listing_is_sorted_and_complete(&self.peers);
    }

    /// The registry and the limiter are well formed.
    pub closed spec fn wf(&self) -> bool {
        &&& self.peers.wf()
        &&& self.limiter.wf()
    }

    /// An engine for a plain peer with the desktop policy.
    pub fn new(node_id: String, display_name: Option<String>) -> (r: Self)
        ensures
            r.wf(),
            r@.node.node_id == node_id@,
            r@.node.display_name == opt_view(display_name),
            r@.node.role == NodeRole::Peer,
            ascending_texts(r@.node.capabilities),
            r@.node.capabilities.to_set() == node_capability_set(NodeRole::Peer),
            r@.node == new_node(
                node_id@,
                opt_view(display_name),
                NodeRole::Peer,
                crate::mesh::identity::desktop_policy(),
                r@.node.capabilities,
            ),
            r@.peers.is_empty(),
            r@.transports.len() == 0,
            r@.seen.len() == 0,
            r@.limiter.control.len() == 0,
            r@.limiter.stream.len() == 0,
            r@.limiter.global_in == crate::mesh::rate_limit::global_start(),
            r@.limiter.global_out == crate::mesh::rate_limit::global_start(),
    {
        Self::new_with_role(node_id, display_name, NodeRole::Peer, ConnectivityPolicy::desktop_default())
    }

    /// An engine for a node of `role`: it advertises the capabilities of
    /// that role, in ascending order, and knows no peer, transport or
    /// message yet.
    pub fn new_with_role(
        node_id: String,
        display_name: Option<String>,
        role: NodeRole,
        connectivity_policy: ConnectivityPolicy,
    ) -> (r: Self)
        ensures
            r.wf(),
            ascending_texts(r@.node.capabilities),
            r@.node.capabilities.to_set() == node_capability_set(role),
            r@.node == new_node(
                node_id@,
                opt_view(display_name),
                role,
                connectivity_policy@,
                r@.node.capabilities,
            ),
            r@.peers.is_empty(),
            r@.transports.len() == 0,
            r@.seen.len() == 0,
            r@.limiter.control.len() == 0,
            r@.limiter.stream.len() == 0,
            r@.limiter.global_in == crate::mesh::rate_limit::global_start(),
            r@.limiter.global_out == crate::mesh::rate_limit::global_start(),
    {
        let capabilities = node_capabilities(role);
        let node = NodeIdentity {
            node_id,
            role,
            display_name,
            capabilities,
            connectivity_policy,
            known_transports: Vec::new(),
            last_seen: None,
            transmission_profile: None,
            metadata: owned("null"),
        };
        let r = MeshEngine {
            node,
            peers: PeerRegistry::new(),
            transports: Vec::new(),
            seen_messages: Vec::new(),
            limiter: RateLimiter::new(),
            epoch: instant_now(),
            clock: 0,
        };
        assert(r@.node.known_transports =~= Seq::<TransportEndpointView>::empty());
        assert(r@.transports =~= Seq::<Seq<char>>::empty());
        r
    }

    /// Nanoseconds since the engine was made.
    pub fn now(&self) -> u128 {
        nanos_since(&self.epoch)
    }

    /// Reads the clock for an action: the time now, never before the last
    /// reading, which it becomes.
    fn tick(&mut self) -> (r: u128)
        ensures
            old(self).clock() <= r,
            final(self).clock() == r,
            final(self)@ == old(self)@,
            final(self).keeps_transports(old(self)),
            final(self).wf() == old(self).wf(),
    {
        let t = self.now();
        let r = if t > self.clock {
            t
        } else {
            self.clock
        };
        self.clock = r;
        r
    }

    /// A copy of this node's identity.
    pub fn node(&self) -> (r: NodeIdentity)
        ensures
            r@ == self@.node,
    {
        self.node.clone()
    }

    fn find_kind(&self, kind: &str) -> (r: Option<usize>)
        ensures
            match r {
                Some(i) => Some(i as int) == kind_index(self@.transports, kind@, 0) && i
                    < self.transports@.len(),
                None => kind_index(self@.transports, kind@, 0) is None,
            },
    {
        let ghost kinds = self@.transports;
        let mut i: usize = 0;
        while i < self.transports.len()
            invariant
                i <= self.transports@.len(),
                kinds == kinds_of(self.transports@),
                forall|m: int| 0 <= m < i ==> kinds[m] != kind@,
            decreases self.transports@.len() - i,
        {
            if str_eq(self.transports[i].kind.as_str(), kind) {
                proof {
                    lemma_kind_index_skip(kinds, kind@, 0, i as int);
                }
                return Some(i);
            }
            i = i + 1;
        }
        proof {
            lemma_kind_index_skip(kinds, kind@, 0, i as int);
        }
        None
    }

    /// Registers `transport` under its kind, in place of any transport of
    /// that kind; the others stay where they were.
    pub fn register_transport(&mut self, transport: T)
        ensures
            exists|k: Seq<char>|
                #[trigger] with_kind(old(self)@.transports, k) == final(self)@.transports && (
                transport.obeys_transport_spec() ==> k == transport.kind_name()) && match kind_index(
                    final(self)@.transports,
                    k,
                    0,
                ) {
                    Some(i) => final(self).transport_at(i) == transport && forall|j: int|
                        0 <= j < old(self)@.transports.len() && j != i
                            ==> #[trigger] final(self).transport_at(j) == old(self).transport_at(j),
                    None => false,
                },
            final(self)@ == (EngineView { transports: final(self)@.transports, ..old(self)@ }),
            final(self).wf() == old(self).wf(),
    {
        let kind = transport.kind();
        let ghost t = transport;
        match self.find_kind(kind) {
            Some(i) => {
                let ghost before = self.transports@;
                self.transports.set(i, Registered { kind: owned(kind), transport });
                proof {
                    lemma_kind_index_found(kinds_of(before), kind@, 0);
                    assert(kinds_of(self.transports@) =~= kinds_of(before));
                    assert(with_kind(old(self)@.transports, kind@) == self@.transports);
                    assert(kind_index(self@.transports, kind@, 0) == Some(i as int));
                    assert(self.transport_at(i as int) == t);
                    assert forall|j: int| 0 <= j < before.len() && j != i implies #[trigger] self.transport_at(j)
                        == old(self).transport_at(j) by {
                        assert(self.transports@[j] == before[j]);
                    }
                }
            },
            None => {
                let ghost before = self.transports@;
                self.transports.push(Registered { kind: owned(kind), transport });
                proof {
                    let nk = kinds_of(self.transports@);
                    assert(nk =~= kinds_of(before).push(kind@));
                    lemma_kind_index_none(kinds_of(before), kind@, 0);
                    lemma_kind_index_skip(nk, kind@, 0, before.len() as int);
                    assert(kind_index(nk, kind@, before.len() as int) == Some(before.len() as int));
                    assert(self.transport_at(before.len() as int) == t);
                    assert(with_kind(old(self)@.transports, kind@) == self@.transports);
                    assert forall|j: int| 0 <= j < before.len() implies #[trigger] self.transport_at(j)
                        == old(self).transport_at(j) by {
                        assert(self.transports@[j] == before[j]);
                    }
                }
            },
        }
    }

    /// The transport registered under `kind`, to work with directly.
    pub fn transport_mut(&mut self, kind: &str) -> (r: Option<&mut T>)
        ensures
            r is Some <==> kind_index(old(self)@.transports, kind@, 0) is Some,
    {
        match self.find_kind(kind) {
            Some(i) => Some(&mut self.transports[i].transport),
            None => None,
        }
    }

    /// What each registered transport reports, one entry per transport.
    pub fn transport_statuses(&self) -> (r: Vec<MeshTransportStatus>)
        ensures
            r@.len() == self@.transports.len(),
            forall|i: int|
                0 <= i < r@.len() && self.transport_at(i).obeys_transport_spec() ==> (
                #[trigger] r@[i]).endpoint@ == self.transport_at(i).status_view(),
    {
        let mut out: Vec<MeshTransportStatus> = Vec::new();
        let mut i: usize = 0;
        while i < self.transports.len()
            invariant
                i <= self.transports@.len(),
                out@.len() == i,
                forall|k: int|
                    0 <= k < i && self.transport_at(k).obeys_transport_spec() ==> (
                    #[trigger] out@[k]).endpoint@ == self.transport_at(k).status_view(),
            decreases self.transports@.len() - i,
        {
            let t = &self.transports[i].transport;
            out.push(
                MeshTransportStatus {
                    endpoint: t.status(),
                    capacity: t.capacity(),
                    capabilities: t.capabilities(),
                },
            );
            i = i + 1;
        }
        out
    }

    /// Registers the peer a request describes, over any record of its id.
    pub fn register_peer_request(&mut self, req: RegisterPeerRequest) -> (r: Result<PeerIdentity, String>)
        requires
            old(self).wf(),
        ensures
            final(self).wf(),
            peer_result(r) == requested_peer(req@),
            match requested_peer(req@) {
                Ok(p) => final(self)@ == (EngineView {
                    peers: old(self)@.peers.insert(p.id, p),
                    ..old(self)@
                }),
                Err(_) => final(self)@ == old(self)@,
            },
    {
        match peer_from_request(req) {
            Ok(peer) => Ok(self.peers.register(peer)),
            Err(e) => Err(e),
        }
    }

    /// Every known peer, in ascending order of id, without metadata.
    pub fn list_peers(&self) -> (r: Vec<MeshPeer>)
        requires
            self.wf(),
        ensures
            r@.len() == self.peer_listing().len(),
            forall|i: int| 0 <= i < r@.len() ==> #[trigger] r@[i]@ == listed_view(self.peer_listing()[i]),
    {
        let peers = self.peers.list();
        let mut out: Vec<MeshPeer> = Vec::new();
        let mut i: usize = 0;
        while i < peers.len()
            invariant
                i <= peers@.len(),
                out@.len() == i,
                peer_views(peers@) == self.peers.listing(),
                forall|k: int| 0 <= k < i ==> #[trigger] out@[k]@ == listed_view(peers@[k]@),
            decreases peers@.len() - i,
        {
            let p = peers[i].clone();
            out.push(MeshPeer::from(p));
            i = i + 1;
        }
        proof {
            assert forall|k: int| 0 <= k < out@.len() implies #[trigger] out@[k]@ == listed_view(
                self.peers.listing()[k],
            ) by {
                assert(peer_views(peers@)[k] == peers@[k]@);
            }
        }
        out
    }

    fn select_transport(&self, peer: &PeerIdentity) -> (r: Option<usize>)
        ensures
            match r {
                Some(i) => Some(i as int) == selected_transport(self@.transports, peer@) && i
                    < self.transports@.len(),
                None => selected_transport(self@.transports, peer@) is None,
            },
    {
        let ghost eps = peer@.transports;
        let mut j: usize = 0;
        while j < peer.transports.len()
            invariant
                j <= peer.transports@.len(),
                eps == endpoints_view(peer.transports@),
                forall|m: int| 0 <= m < j ==> #[trigger] kind_index(self@.transports, eps[m].kind, 0) is None,
            decreases peer.transports@.len() - j,
        {
            match self.find_kind(peer.transports[j].kind.as_str()) {
                Some(i) => {
                    proof {
                        lemma_endpoint_choice_skip(self@.transports, eps, 0, j as int);
                    }
                    return Some(i);
                },
                None => {},
            }
            j = j + 1;
        }
        proof {
            lemma_endpoint_choice_skip(self@.transports, eps, 0, j as int);
        }
        if peer.url.is_some() {
            self.find_kind("local_http")
        } else {
            None
        }
    }

    /// The checks before an envelope goes to `peer` at `now`; the index of
    /// the transport to use.
    pub fn admit_send_at(&mut self, envelope: &ProtocolEnvelope, peer: &PeerIdentity, now: u128) -> (r:
        Result<usize, String>)
        requires
            old(self).wf(),
        ensures
            final(self).wf(),
            send_admission(old(self)@, final(self)@, envelope@, peer@, now, index_view(r)),
            r matches Ok(i) ==> i < final(self)@.transports.len(),
            final(self).keeps_transports(old(self)),
            final(self).clock() == old(self).clock(),
    {
        let ghost v0 = self@;
        match envelope.validate() {
            Err(e) => {
                return Err(e);
            },
            Ok(()) => {},
        }
        if mark_seen_in(&mut self.seen_messages, envelope.message_id, now) {
            return Err(owned("duplicate_message"));
        }
        let ghost v1 = self@;
        let bytes = envelope.serialized_len();
        let lane = lane_for_message(envelope.message_type.as_str());
        let allowed = self.limiter.allow_outbound_at(peer.id.as_str(), lane, bytes, now);
        let ghost v2 = self@;
        assert(v1.limiter == v0.limiter);
        assert(outbound_decision(
            v0.limiter,
            v2.limiter,
            peer@.id,
            lane_of(envelope@.message_type),
            envelope_size(envelope@),
            now as int,
            allowed,
        ));
        if !allowed {
            let mut p = peer.clone();
            p.telemetry.rate_limited_count = p.telemetry.rate_limited_count.wrapping_add(1);
            p.escalation_state = owned("throttle");
            assert(p@ == throttled(peer@));
            self.peers.update(p);
            assert(self@.peers == v0.peers.insert(peer@.id, throttled(peer@)));
            assert(self@.seen == mark_seen_spec(v0.seen, envelope@.message_id, now).0);
            assert(self@.limiter == v2.limiter);
            assert(self@.node == v0.node);
            assert(self@.transports == v0.transports);
            return Err(owned("peer_rate_limited"));
        }
        match self.select_transport(peer) {
            Some(i) => Ok(i),
            None => Err(owned("peer_transport_unavailable")),
        }
    }

    /// Records what the transport answered for a message to `peer`: on
    /// success the peer is online, with the latency as its round trip
    /// time; on failure it is offline with the transport's code.
    pub fn finish_send(
        &mut self,
        peer: PeerIdentity,
        result: Result<TransportReceipt, TransportError>,
        latency_ms: u128,
        seen_at: String,
    ) -> (r: Result<MeshSendOutcome, String>)
        requires
            old(self).wf(),
        ensures
            final(self).wf(),
            (final(self)@, outcome_view(r)) == finished(
                old(self)@,
                peer@,
                transport_outcome(result, latency_ms, seen_at@),
            ),
            final(self).keeps_transports(old(self)),
            final(self).clock() == old(self).clock(),
    {
        let mut peer = peer;
        match result {
            Ok(receipt) => {
                peer.status = owned("online");
                peer.last_seen = Some(seen_at);
                peer.latency_ms = Some(latency_ms);
                peer.last_transport = Some(receipt.transport);
                peer.telemetry.rtt_ms = Some(latency_ms);
                peer.escalation_state = escalation_state(&peer);
                let p = self.peers.update(peer);
                Ok(MeshSendOutcome { ok: true, peer: p })
            },
            Err(error) => {
                let mut status = owned("offline: ");
                status.append(error.code.as_str());
                peer.status = status;
                peer.telemetry.dropped_messages = peer.telemetry.dropped_messages.wrapping_add(1);
                peer.escalation_state = owned("warn");
                peer.last_transport = None;
                self.peers.update(peer);
                Err(error.code)
            },
        }
    }

    /// Sends `envelope` to `peer` now, over the transport chosen for it.
    pub fn send_to_peer(&mut self, envelope: ProtocolEnvelope, peer: PeerIdentity) -> (r: Result<
        MeshSendOutcome,
        String,
    >)
        requires
            old(self).wf(),
        ensures
            final(self).wf(),
            old(self).sent_by(final(self), envelope@, peer@, outcome_view(r)),
    {
        let ghost e00 = *self;
        let now = self.tick();
        let ghost before = self@;
        let ghost e0 = *self;
        let chosen = self.admit_send_at(&envelope, &peer, now);
        let ghost mid = self@;
        match chosen {
            Err(e) => {
                assert(send_admission(before, mid, envelope@, peer@, now, index_view(Err(e))));
                assert(self.keeps_transports(&e0));
                Err(e)
            },
            Ok(i) => {
                let ghost pre = self.transports@;
                let ghost e1 = *self;
                let result = self.transports[i].transport.send(&envelope, &peer);
                let ghost e2 = *self;
                proof {
                    assert(self.transports@.len() == pre.len());
                    assert forall|k: int| 0 <= k < pre.len() implies self.transports@[k].kind
                        == pre[k].kind by {}
                    assert(kinds_of(self.transports@) =~= kinds_of(pre));
                    assert(self@ == mid);
                    assert(e1.keeps_transports(&e0));
                    assert(e1.transport_at(i as int) == pre[i as int].transport);
                    assert(e2.transport_at(i as int) == self.transports@[i as int].transport);
                    assert forall|j: int| 0 <= j < pre.len() && j != i implies #[trigger] e2.transport_at(j)
                        == e0.transport_at(j) by {
                        assert(self.transports@[j] == pre[j]);
                        assert(e1.transport_at(j) == e0.transport_at(j));
                    }
                }
                let ghost e3 = *self;
                let later = self.tick();
                let latency_ms = (later - now) / 1_000_000;
                let seen_at = now_rfc3339();
                let ghost out = transport_outcome(result, latency_ms, seen_at@);
                let ghost pv = peer@;
                let ghost answered = transport_answer(result);
                let r = self.finish_send(peer, result, latency_ms, seen_at);
                proof {
                    assert(finished(mid, pv, out) == (self@, outcome_view(r)));
                    assert(send_admission(before, mid, envelope@, pv, now, Ok(i as int)));
                    assert(answer_of(out) == answered);
                    assert(self.keeps_transports(&e2));
                    assert(self.transport_at(i as int) == e2.transport_at(i as int));
                    assert forall|j: int| 0 <= j < pre.len() && j != i implies #[trigger] self.transport_at(j)
                        == e0.transport_at(j) by {
                        assert(e2.transport_at(j) == e0.transport_at(j));
                    }
                }
                r
            },
        }
    }

    /// Pings a known peer: a `core.ping` envelope from this node, sent as
    /// any other.
    pub fn ping_peer(&mut self, peer_id: &str) -> (r: Result<MeshSendOutcome, String>)
        requires
            old(self).wf(),
        ensures
            final(self).wf(),
            !old(self)@.peers.dom().contains(peer_id@) ==> final(self)@ == old(self)@
                && final(self).keeps_transports(old(self)) && outcome_view(r) == Err::<
                (bool, PeerIdentityView),
                Seq<char>,
            >("peer_not_found"@),
            old(self)@.peers.dom().contains(peer_id@) ==> exists|e: EnvelopeView|
                #[trigger] is_ping(e, old(self)@.node.node_id, old(self)@.peers[peer_id@].id)
                    && old(self).sent_by(
                    final(self),
                    e,
                    old(self)@.peers[peer_id@],
                    outcome_view(r),
                ),
    {
        let peer = match self.peers.get(peer_id) {
            Some(p) => p,
            None => {
                return Err(owned("peer_not_found"));
            },
        };
        let mut message = owned("mesh ping from ");
        message.append(self.node.node_id.as_str());
        let mut payload = owned("{\"message\":");
        push_json_str(&mut payload, message.as_str());
        payload.append("}");
        let ghost node_id = self@.node.node_id;
        assert(payload@ =~= ping_payload(node_id));
        let envelope = ProtocolEnvelope::new(
            self.node.node_id.clone(),
            Some(peer.id.clone()),
            owned("core.ping"),
            PayloadType::Json,
            payload,
        );
        proof {
            reveal_strlit("core.ping");
            assert(envelope@.message_type == "core.ping"@);
        }
        let ghost e = envelope@;
        let ghost p = peer@;
        let r = self.send_to_peer(envelope, peer);
        assert(is_ping(e, node_id, p.id));
        r
    }

    /// Takes in an envelope at `now`: `true` if it is new, `false` if its
    /// id was seen before.
    pub fn receive_at(&mut self, envelope: &ProtocolEnvelope, now: u128) -> (r: Result<bool, String>)
        requires
            old(self).wf(),
        ensures
            final(self).wf(),
            received(old(self)@, final(self)@, envelope@, now, bool_view(r)),
            final(self).clock() == old(self).clock(),
    {
        match envelope.validate() {
            Err(e) => {
                return Err(e);
            },
            Ok(()) => {},
        }
        let ghost v0 = self@;
        let bytes = envelope.serialized_len();
        let lane = lane_for_message(envelope.message_type.as_str());
        let allowed = self.limiter.allow_inbound_at(envelope.source_node_id.as_str(), lane, bytes, now);
        assert(inbound_decision(
            v0.limiter,
            self@.limiter,
            envelope@.source_node_id,
            lane_of(envelope@.message_type),
            envelope_size(envelope@),
            now as int,
            allowed,
        ));
        if !allowed {
            return Err(owned("peer_rate_limited"));
        }
        let ghost v1 = self@;
        if mark_seen_in(&mut self.seen_messages, envelope.message_id, now) {
            assert(self@.limiter == v1.limiter);
            assert(self@.peers == v0.peers);
            assert(self@.seen == mark_seen_spec(v0.seen, envelope@.message_id, now).0);
            return Ok(false);
        }
        assert(self@.limiter == v1.limiter);
        assert(self@.peers == v0.peers);
        assert(self@.seen == mark_seen_spec(v0.seen, envelope@.message_id, now).0);
        if envelope.hop_count >= envelope.ttl {
            return Err(owned("ttl_exhausted"));
        }
        Ok(true)
    }

    /// Takes in an envelope now.
    pub fn receive(&mut self, envelope: ProtocolEnvelope) -> (r: Result<bool, String>)
        requires
            old(self).wf(),
        ensures
            final(self).wf(),
            exists|now: u128| #[trigger] received(old(self)@, final(self)@, envelope@, now, bool_view(r)),
            old(self).clock() <= final(self).clock(),
    {
        let now = self.tick();
        self.receive_at(&envelope, now)
    }
}

/// A received envelope draws on the lane its message type selects, in its
/// sender's buckets: a `stream.chunk` leaves every peer's control bucket
/// as it was and, when taken in, is charged its bytes in the sender's
/// stream bucket; any other message leaves every stream bucket as it was
/// and, when taken in, is charged one token in the sender's control bucket.
pub proof fn law_received_envelope_draws_on_its_lane(
    before: EngineView,
    after: EngineView,
    e: EnvelopeView,
    now: u128,
    r: Result<bool, Seq<char>>,
)
    requires
        received(before, after, e, now, r),
    ensures
        e.message_type == "stream.chunk"@ ==> forall|p: Seq<char>|
            #[trigger] crate::mesh::rate_limit::lane_buckets(after.limiter.control, p)
                == crate::mesh::rate_limit::lane_buckets(before.limiter.control, p),
        e.message_type != "stream.chunk"@ ==> forall|p: Seq<char>|
            #[trigger] crate::mesh::rate_limit::lane_buckets(after.limiter.stream, p)
                == crate::mesh::rate_limit::lane_buckets(before.limiter.stream, p),
        r is Ok && e.message_type == "stream.chunk"@ ==> crate::mesh::rate_limit::lane_buckets(
            after.limiter.stream,
            e.source_node_id,
        ) == Some(
            crate::mesh::rate_limit::bucket_after(
                crate::mesh::rate_limit::peer_bucket(before.limiter, RateLane::Stream, e.source_node_id, now as int),
                now as int,
                crate::mesh::rate_limit::byte_cost(envelope_size(e)),
            ),
        ),
        r is Ok && e.message_type != "stream.chunk"@ ==> crate::mesh::rate_limit::lane_buckets(
            after.limiter.control,
            e.source_node_id,
        ) == Some(
            crate::mesh::rate_limit::bucket_after(
                crate::mesh::rate_limit::peer_bucket(before.limiter, RateLane::Control, e.source_node_id, now as int),
                now as int,
                crate::mesh::rate_limit::UNIT as int,
            ),
        ),
{
    if validation(e) is Ok {
        let allowed = choose|allowed: bool|
            #[trigger] inbound_decision(
                before.limiter,
                after.limiter,
                e.source_node_id,
                lane_of(e.message_type),
                envelope_size(e),
                now as int,
                allowed,
            ) && received(before, after, e, now, r);
        crate::mesh::rate_limit::law_inbound_draws_on_its_lane(
            before.limiter,
            after.limiter,
            e.source_node_id,
            lane_of(e.message_type),
            envelope_size(e),
            now as int,
            allowed,
        );
    }
}

/// The latency a delivered send records spans the whole hand-off: it is
/// the whole milliseconds from the time the send was admitted (the time
/// the envelope's id was recorded, before the transport was handed the
/// envelope) to the engine's clock after the transport answered; the
/// round-trip time is the same, and the engine's clock never goes back.
pub proof fn law_send_latency_spans_the_send<T: MeshTransport>(
    before: &MeshEngine<T>,
    after: &MeshEngine<T>,
    e: EnvelopeView,
    p: PeerIdentityView,
    r: Result<(bool, PeerIdentityView), Seq<char>>,
)
    requires
        before.sent_by(after, e, p, r),
    ensures
        before.clock() <= after.clock(),
        r matches Ok((_, q)) ==> {
            let sent_at = after@.seen.last().1;
            &&& after@.seen.len() > 0
            &&& after@.seen.last().0 == e.message_id
            &&& before.clock() <= sent_at <= after.clock()
            &&& q.latency_ms == Some(((after.clock() - sent_at) / 1_000_000) as u128)
            &&& q.telemetry.rtt_ms == q.latency_ms
            &&& q.status == "online"@
        },
{
    let (now, mid, chosen) = choose|now: u128, mid: EngineView, chosen: Result<int, Seq<char>>|
        #[trigger] send_admission(before@, mid, e, p, now, chosen) && before.clock() <= now
            && match chosen {
            Err(m) => after@ == mid && r == Err::<(bool, PeerIdentityView), Seq<char>>(m)
                && after.keeps_transports(before) && after.clock() == now,
            Ok(i) => {
                &&& 0 <= i < before@.transports.len()
                &&& after@.transports == before@.transports
                &&& forall|j: int|
                    0 <= j < before@.transports.len() && j != i ==> #[trigger] after.transport_at(j)
                        == before.transport_at(j)
                &&& now <= after.clock()
                &&& exists|out: Result<(Seq<char>, u128, Seq<char>), Seq<char>>|
                    #[trigger] finished(mid, p, out) == (after@, r) && (out matches Ok(
                        (_, latency, _),
                    ) ==> latency == (after.clock() - now) / 1_000_000) && (
                    before.transport_at(i).obeys_transport_spec() ==> after.transport_at(
                        i,
                    ).obeys_transport_spec() && before.transport_at(i).answers(
                        &after.transport_at(i),
                        e,
                        p,
                        answer_of(out),
                    ))
            },
        };
    if let Ok(i) = chosen {
        let out = choose|out: Result<(Seq<char>, u128, Seq<char>), Seq<char>>|
            #[trigger] finished(mid, p, out) == (after@, r) && (out matches Ok(
                (_, latency, _),
            ) ==> latency == (after.clock() - now) / 1_000_000) && (
            before.transport_at(i).obeys_transport_spec() ==> after.transport_at(
                i,
            ).obeys_transport_spec() && before.transport_at(i).answers(
                &after.transport_at(i),
                e,
                p,
                answer_of(out),
            ));
        if r is Ok {
            assert(validation(e) is Ok);
            reveal_strlit("online");
        }
    }
}

/// An envelope taken in as new is not new again when it comes back within
/// the ttl of the seen-message memory: it is answered `false`, unless the
/// limiter turns it away first.
pub proof fn law_received_envelope_is_not_new_again(
    v0: EngineView,
    v1: EngineView,
    v2: EngineView,
    e: EnvelopeView,
    first: u128,
    again: u128,
    r: Result<bool, Seq<char>>,
)
    requires
        received(v0, v1, e, first, Ok(true)),
        received(v1, v2, e, again, r),
        since(first, again) <= SEEN_MESSAGE_TTL_NANOS,
    ensures
        r == Ok::<bool, Seq<char>>(false) || r == Err::<bool, Seq<char>>("peer_rate_limited"@),
{
    let allowed = choose|allowed: bool|
        #[trigger] inbound_decision(
            v0.limiter,
            v1.limiter,
            e.source_node_id,
            lane_of(e.message_type),
            envelope_size(e),
            first as int,
            allowed,
        ) && v1.seen == mark_seen_spec(v0.seen, e.message_id, first).0 && allowed;
    law_replay_is_detected(v0.seen, e.message_id, first, again);
}

/// An envelope whose hops have reached its ttl is never taken in as new.
pub proof fn law_exhausted_ttl_is_never_new(
    v0: EngineView,
    v1: EngineView,
    e: EnvelopeView,
    now: u128,
    r: Result<bool, Seq<char>>,
)
    requires
        received(v0, v1, e, now, r),
        e.hop_count >= e.ttl,
    ensures
        r != Ok::<bool, Seq<char>>(true),
{
}

/// An envelope that passed the duplicate check on its way out is refused
/// as a duplicate when it is sent again within the ttl of the memory
/// (whatever the transport did in between, the memory is the same).
pub proof fn law_resent_envelope_is_duplicate(
    v0: EngineView,
    m1: EngineView,
    v1: EngineView,
    m2: EngineView,
    e: EnvelopeView,
    p1: PeerIdentityView,
    p2: PeerIdentityView,
    first: u128,
    again: u128,
    c1: Result<int, Seq<char>>,
    c2: Result<int, Seq<char>>,
)
    requires
        validation(e) is Ok,
        send_admission(v0, m1, e, p1, first, c1),
        c1 != Err::<int, Seq<char>>("duplicate_message"@),
        v1.seen == m1.seen,
        send_admission(v1, m2, e, p2, again, c2),
        since(first, again) <= SEEN_MESSAGE_TTL_NANOS,
    ensures
        c2 == Err::<int, Seq<char>>("duplicate_message"@),
{
    if mark_seen_spec(v0.seen, e.message_id, first).1 {
        assert(c1 == Err::<int, Seq<char>>("duplicate_message"@));
    } else {
        let allowed = choose|allowed: bool|
            #[trigger] outbound_decision(
                v0.limiter,
                m1.limiter,
                p1.id,
                lane_of(e.message_type),
                envelope_size(e),
                first as int,
                allowed,
            ) && m1.seen == mark_seen_spec(v0.seen, e.message_id, first).0;
        law_replay_is_detected(v0.seen, e.message_id, first, again);
    }
}

/// A peer registered through the engine is listed as the request
/// describes it, and no other peer changes.
pub proof fn law_registered_peer_is_stored(before: EngineView, after: EngineView, req: RegisterPeerRequestView)
    requires
        requested_peer(req) is Ok,
        after == (EngineView {
            peers: before.peers.insert(requested_peer(req)->Ok_0.id, requested_peer(req)->Ok_0),
            ..before
        }),
    ensures
        after.peers.dom().contains(trim(req.id)),
        after.peers[trim(req.id)] == requested_peer(req)->Ok_0,
        forall|k: Seq<char>|
            k != trim(req.id) ==> (#[trigger] after.peers.dom().contains(k)) == before.peers.dom().contains(k)
                && (before.peers.dom().contains(k) ==> after.peers[k] == before.peers[k]),
{
}

/// A peer registered without an address is put on the transport it asked
/// for, reported unavailable, rather than on HTTP.
pub proof fn law_peer_without_address_is_unavailable(req: RegisterPeerRequestView)
    requires
        requested_peer(req) is Ok,
        req.url is None || trim(req.url->Some_0).len() == 0,
        req.transports.len() == 0,
    ensures
        requested_peer(req)->Ok_0.url is None,
        requested_peer(req)->Ok_0.transports == seq![
            crate::mesh::identity::unavailable_endpoint(requested_kind(req)),
        ],
{
}

} // verus!
