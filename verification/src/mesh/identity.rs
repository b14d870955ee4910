//! Node and peer identity: roles, connectivity policies, transmission
//! profiles, transport endpoints and the peer records the registry keeps.
use crate::text::{lower, trim, trimmed_lower_eq};
use vstd::prelude::*;

verus! {

broadcast use vstd::string::group_string_axioms;

/// An owned copy of a string slice.
pub fn owned(s: &str) -> (r: String)
    ensures
        r@ == s@,
{
    s.to_string()
}

/// The character views of a sequence of strings.
pub open spec fn strings_view(v: Seq<String>) -> Seq<Seq<char>> {
    v.map_values(|s: String| s@)
}

/// An element-by-element copy of a vector of strings.
pub fn clone_strings(v: &Vec<String>) -> (r: Vec<String>)
    ensures
        r@ == v@,
{
    let mut r: Vec<String> = Vec::new();
    let mut i: usize = 0;
    while i < v.len()
        invariant
            i <= v@.len(),
            r@ == v@.subrange(0, i as int),
        decreases v@.len() - i,
    {
        r.push(v[i].clone());
        i = i + 1;
    }
    r
}

pub fn clone_opt_string(s: &Option<String>) -> (r: Option<String>)
    ensures
        r == *s,
{
    match s {
        Some(x) => Some(x.clone()),
        None => None,
    }
}

pub open spec fn opt_view(s: Option<String>) -> Option<Seq<char>> {
    match s {
        Some(x) => Some(x@),
        None => None,
    }
}

/// The role a node plays in the mesh.
#[derive(Clone, Copy, Debug, PartialEq, Eq, Structural)]
pub enum NodeRole {
    Peer,
    Bootstrap,
    Relay,
    Coordinator,
    Catalog,
    Mobile,
}

/// The role named by a configuration value: the value is trimmed and
/// lower-cased (ASCII) and matched against the known names and aliases;
/// anything else, or no value, is a plain peer.
pub open spec fn role_from_text(value: Option<String>) -> NodeRole {
    let t = lower(
        trim(
            match value {
                Some(v) => v@,
                None => Seq::empty(),
            },
        ),
    );
    if t == "bootstrap"@ {
        NodeRole::Bootstrap
    } else if t == "relay"@ {
        NodeRole::Relay
    } else if t == "coordinator"@ || t == "central"@ {
        NodeRole::Coordinator
    } else if t == "catalog"@ {
        NodeRole::Catalog
    } else if t == "mobile"@ || t == "cell"@ || t == "phone"@ {
        NodeRole::Mobile
    } else {
        NodeRole::Peer
    }
}

/// The capability each role advertises.
pub open spec fn role_capability(role: NodeRole) -> Seq<char> {
    match role {
        NodeRole::Peer => "mesh.peer"@,
        NodeRole::Bootstrap => "mesh.bootstrap"@,
        NodeRole::Relay => "mesh.relay"@,
        NodeRole::Coordinator => "scene.coordinator"@,
        NodeRole::Catalog => "catalog.publisher"@,
        NodeRole::Mobile => "mesh.mobile"@,
    }
}

/// Each role name (`peer` included), and each alias, in any ASCII case and
/// with blanks around it, reads back as its role.
pub proof fn law_role_names_read_back(value: Option<String>)
    ensures
        role_text(value) == "bootstrap"@ ==> role_from_text(value) == NodeRole::Bootstrap,
        role_text(value) == "relay"@ ==> role_from_text(value) == NodeRole::Relay,
        role_text(value) == "coordinator"@ || role_text(value) == "central"@ ==> role_from_text(
            value,
        ) == NodeRole::Coordinator,
        role_text(value) == "catalog"@ ==> role_from_text(value) == NodeRole::Catalog,
        role_text(value) == "mobile"@ || role_text(value) == "cell"@ || role_text(value)
            == "phone"@ ==> role_from_text(value) == NodeRole::Mobile,
        role_text(value) == "peer"@ ==> role_from_text(value) == NodeRole::Peer,
{
    reveal_strlit("peer");
    reveal_strlit("bootstrap");
    reveal_strlit("relay");
    reveal_strlit("coordinator");
    reveal_strlit("central");
    reveal_strlit("catalog");
    reveal_strlit("mobile");
    reveal_strlit("cell");
    reveal_strlit("phone");
    assert("bootstrap"@.len() == 9 && "relay"@.len() == 5 && "coordinator"@.len() == 11);
    assert("central"@.len() == 7 && "catalog"@.len() == 7 && "mobile"@.len() == 6);
    assert("cell"@.len() == 4 && "phone"@.len() == 5);
    assert("central"@[1] == 'e' && "catalog"@[1] == 'a');
    assert("phone"@[0] == 'p' && "relay"@[0] == 'r');
    assert("peer"@.len() == 4 && "peer"@[0] == 'p' && "cell"@[0] == 'c');
}

/// The configuration text a role is read from: trimmed, lower-cased.
pub open spec fn role_text(value: Option<String>) -> Seq<char> {
    lower(
        trim(
            match value {
                Some(v) => v@,
                None => Seq::empty(),
            },
        ),
    )
}

impl NodeRole {
    pub fn from_env_value(value: Option<String>) -> (r: Self)
        ensures
            r == role_from_text(value),
    {
        let text = match &value {
            Some(v) => v.clone(),
            None => String::new(),
        };
        let s = text.as_str();
        if trimmed_lower_eq(s, "bootstrap") {
            NodeRole::Bootstrap
        } else if trimmed_lower_eq(s, "relay") {
            NodeRole::Relay
        } else if trimmed_lower_eq(s, "coordinator") || trimmed_lower_eq(s, "central") {
            NodeRole::Coordinator
        } else if trimmed_lower_eq(s, "catalog") {
            NodeRole::Catalog
        } else if trimmed_lower_eq(s, "mobile") || trimmed_lower_eq(s, "cell")
            || trimmed_lower_eq(s, "phone") {
            NodeRole::Mobile
        } else {
            NodeRole::Peer
        }
    }

    pub fn capability(&self) -> (r: &'static str)
        ensures
            r@ == role_capability(*self),
    {
        match self {
            NodeRole::Peer => "mesh.peer",
            NodeRole::Bootstrap => "mesh.bootstrap",
            NodeRole::Relay => "mesh.relay",
            NodeRole::Coordinator => "scene.coordinator",
            NodeRole::Catalog => "catalog.publisher",
            NodeRole::Mobile => "mesh.mobile",
        }
    }
}

/// What a node lets other nodes do with it.
#[derive(Debug)]
pub struct ConnectivityPolicy {
    pub allow_inbound: bool,
    pub allow_relay: bool,
    pub allow_background_discovery: bool,
    pub requires_user_consent: bool,
    pub max_scan_window_seconds: u16,
    pub notes: Vec<String>,
}

pub struct ConnectivityPolicyView {
    pub allow_inbound: bool,
    pub allow_relay: bool,
    pub allow_background_discovery: bool,
    pub requires_user_consent: bool,
    pub max_scan_window_seconds: u16,
    pub notes: Seq<Seq<char>>,
}

impl View for ConnectivityPolicy {
    type V = ConnectivityPolicyView;

    open spec fn view(&self) -> ConnectivityPolicyView {
        ConnectivityPolicyView {
            allow_inbound: self.allow_inbound,
            allow_relay: self.allow_relay,
            allow_background_discovery: self.allow_background_discovery,
            requires_user_consent: self.requires_user_consent,
            max_scan_window_seconds: self.max_scan_window_seconds,
            notes: strings_view(self.notes@),
        }
    }
}

impl Clone for ConnectivityPolicy {
    fn clone(&self) -> (r: Self)
        ensures
            r@ == self@,
    {
        ConnectivityPolicy {
            allow_inbound: self.allow_inbound,
            allow_relay: self.allow_relay,
            allow_background_discovery: self.allow_background_discovery,
            requires_user_consent: self.requires_user_consent,
            max_scan_window_seconds: self.max_scan_window_seconds,
            notes: clone_strings(&self.notes),
        }
    }
}

/// The policy of a desktop node: inbound allowed, relaying off, user
/// consent required, a 30 second scan window.
pub open spec fn desktop_policy() -> ConnectivityPolicyView {
    ConnectivityPolicyView {
        allow_inbound: true,
        allow_relay: false,
        allow_background_discovery: false,
        requires_user_consent: true,
        max_scan_window_seconds: 30,
        notes: seq!["local-first peer; relay must be explicitly enabled"@],
    }
}

/// The policy of a mobile node: a lightweight client with no inbound
/// connections and a 10 second scan window.
pub open spec fn mobile_policy() -> ConnectivityPolicyView {
    ConnectivityPolicyView {
        allow_inbound: false,
        allow_relay: false,
        allow_background_discovery: false,
        requires_user_consent: true,
        max_scan_window_seconds: 10,
        notes: seq![
            "mobile nodes start as lightweight clients"@,
            "continuous discovery and silent app updates are disabled"@,
        ],
    }
}

impl ConnectivityPolicy {
    pub fn desktop_default() -> (r: Self)
        ensures
            r@ == desktop_policy(),
    {
        let mut notes: Vec<String> = Vec::new();
        notes.push(owned("local-first peer; relay must be explicitly enabled"));
        let r = ConnectivityPolicy {
            allow_inbound: true,
            allow_relay: false,
            allow_background_discovery: false,
            requires_user_consent: true,
            max_scan_window_seconds: 30,
            notes,
        };
        assert(r@.notes =~= desktop_policy().notes);
        r
    }

    pub fn mobile_default() -> (r: Self)
        ensures
            r@ == mobile_policy(),
    {
        let mut notes: Vec<String> = Vec::new();
        notes.push(owned("mobile nodes start as lightweight clients"));
        notes.push(owned("continuous discovery and silent app updates are disabled"));
        let r = ConnectivityPolicy {
            allow_inbound: false,
            allow_relay: false,
            allow_background_discovery: false,
            requires_user_consent: true,
            max_scan_window_seconds: 10,
            notes,
        };
        assert(r@.notes =~= mobile_policy().notes);
        r
    }
}

/// Whether a message goes to one node or to all.
#[derive(Clone, Copy, Debug, PartialEq, Eq, Structural)]
pub enum Destination {
    Direct,
    Broadcast,
}

/// The media budget and look a node announces.
#[derive(Debug)]
pub struct TransmissionProfile {
    pub id: String,
    pub intentional_artifacts: bool,
    pub budget_class: String,
    pub target_fps: u16,
    pub target_video_kbps: u32,
    pub max_video_kbps: u32,
    pub audio_mode: String,
    pub visual_masking: Vec<String>,
}

pub struct TransmissionProfileView {
    pub id: Seq<char>,
    pub intentional_artifacts: bool,
    pub budget_class: Seq<char>,
    pub target_fps: u16,
    pub target_video_kbps: u32,
    pub max_video_kbps: u32,
    pub audio_mode: Seq<char>,
    pub visual_masking: Seq<Seq<char>>,
}

impl View for TransmissionProfile {
    type V = TransmissionProfileView;

    open spec fn view(&self) -> TransmissionProfileView {
        TransmissionProfileView {
            id: self.id@,
            intentional_artifacts: self.intentional_artifacts,
            budget_class: self.budget_class@,
            target_fps: self.target_fps,
            target_video_kbps: self.target_video_kbps,
            max_video_kbps: self.max_video_kbps,
            audio_mode: self.audio_mode@,
            visual_masking: strings_view(self.visual_masking@),
        }
    }
}

impl Clone for TransmissionProfile {
    fn clone(&self) -> (r: Self)
        ensures
            r@ == self@,
    {
        TransmissionProfile {
            id: self.id.clone(),
            intentional_artifacts: self.intentional_artifacts,
            budget_class: self.budget_class.clone(),
            target_fps: self.target_fps,
            target_video_kbps: self.target_video_kbps,
            max_video_kbps: self.max_video_kbps,
            audio_mode: self.audio_mode.clone(),
            visual_masking: clone_strings(&self.visual_masking),
        }
    }
}

pub open spec fn opt_profile_view(p: Option<TransmissionProfile>) -> Option<
    TransmissionProfileView,
> {
    match p {
        Some(x) => Some(x@),
        None => None,
    }
}

pub fn clone_opt_profile(p: &Option<TransmissionProfile>) -> (r: Option<TransmissionProfile>)
    ensures
        opt_profile_view(r) == opt_profile_view(*p),
{
    match p {
        Some(x) => Some(x.clone()),
        None => None,
    }
}

/// The clean profile: 30 fps, 1800 kbps target, 2600 kbps ceiling, stereo
/// sound, no intentional artifacts.
pub open spec fn clean_arcade_profile() -> TransmissionProfileView {
    TransmissionProfileView {
        id: "clean_arcade"@,
        intentional_artifacts: false,
        budget_class: "medium"@,
        target_fps: 30,
        target_video_kbps: 1800,
        max_video_kbps: 2600,
        audio_mode: "stereo"@,
        visual_masking: seq![],
    }
}

/// The low-budget profile that accepts scanlines, color crawl and jitter:
/// 18 fps, 900 kbps target, 1400 kbps ceiling, mono or no sound.
pub open spec fn pirate_broadcast_profile() -> TransmissionProfileView {
    TransmissionProfileView {
        id: "pirate_broadcast"@,
        intentional_artifacts: true,
        budget_class: "low"@,
        target_fps: 18,
        target_video_kbps: 900,
        max_video_kbps: 1400,
        audio_mode: "mono_or_off"@,
        visual_masking: seq!["scanlines"@, "color_crawl"@, "jitter"@],
    }
}

impl TransmissionProfile {
    pub fn clean_arcade() -> (r: Self)
        ensures
            r@ == clean_arcade_profile(),
    {
        let r = TransmissionProfile {
            id: owned("clean_arcade"),
            intentional_artifacts: false,
            budget_class: owned("medium"),
            target_fps: 30,
            target_video_kbps: 1800,
            max_video_kbps: 2600,
            audio_mode: owned("stereo"),
            visual_masking: Vec::new(),
        };
        assert(r@.visual_masking =~= clean_arcade_profile().visual_masking);
        r
    }

    pub fn pirate_broadcast() -> (r: Self)
        ensures
            r@ == pirate_broadcast_profile(),
    {
        let mut masking: Vec<String> = Vec::new();
        masking.push(owned("scanlines"));
        masking.push(owned("color_crawl"));
        masking.push(owned("jitter"));
        let r = TransmissionProfile {
            id: owned("pirate_broadcast"),
            intentional_artifacts: true,
            budget_class: owned("low"),
            target_fps: 18,
            target_video_kbps: 900,
            max_video_kbps: 1400,
            audio_mode: owned("mono_or_off"),
            visual_masking: masking,
        };
        assert(r@.visual_masking =~= pirate_broadcast_profile().visual_masking);
        r
    }
}

/// A way to reach a node. `metadata` holds JSON text; `null` when absent.
#[derive(Debug)]
pub struct TransportEndpoint {
    pub kind: String,
    pub status: String,
    pub url: Option<String>,
    pub metadata: String,
}

pub struct TransportEndpointView {
    pub kind: Seq<char>,
    pub status: Seq<char>,
    pub url: Option<Seq<char>>,
    pub metadata: Seq<char>,
}

impl View for TransportEndpoint {
    type V = TransportEndpointView;

    open spec fn view(&self) -> TransportEndpointView {
        TransportEndpointView {
            kind: self.kind@,
            status: self.status@,
            url: opt_view(self.url),
            metadata: self.metadata@,
        }
    }
}

impl Clone for TransportEndpoint {
    fn clone(&self) -> (r: Self)
        ensures
            r@ == self@,
    {
        TransportEndpoint {
            kind: self.kind.clone(),
            status: self.status.clone(),
            url: clone_opt_string(&self.url),
            metadata: self.metadata.clone(),
        }
    }
}

pub open spec fn endpoints_view(v: Seq<TransportEndpoint>) -> Seq<TransportEndpointView> {
    v.map_values(|e: TransportEndpoint| e@)
}

pub fn clone_endpoints(v: &Vec<TransportEndpoint>) -> (r: Vec<TransportEndpoint>)
    ensures
        endpoints_view(r@) == endpoints_view(v@),
{
    let mut r: Vec<TransportEndpoint> = Vec::new();
    let mut i: usize = 0;
    while i < v.len()
        invariant
            i <= v@.len(),
            endpoints_view(r@) =~= endpoints_view(v@.subrange(0, i as int)),
        decreases v@.len() - i,
    {
        let e = v[i].clone();
        let ghost before = r@;
        r.push(e);
        proof {
            assert(v@.subrange(0, i + 1) =~= v@.subrange(0, i as int).push(v@[i as int]));
            assert(r@ =~= before.push(e));
            assert(endpoints_view(r@) =~= endpoints_view(before).push(e@));
            assert(endpoints_view(v@.subrange(0, i + 1)) =~= endpoints_view(
                v@.subrange(0, i as int),
            ).push(v@[i as int]@));
        }
        i = i + 1;
    }
    assert(v@.subrange(0, v@.len() as int) =~= v@);
    r
}

/// JSON `null`, the text of an absent metadata value.
pub open spec fn json_null() -> Seq<char> {
    "null"@
}

/// The endpoint of a peer reached over local HTTP at `url`.
pub open spec fn http_endpoint(url: Seq<char>) -> TransportEndpointView {
    TransportEndpointView {
        kind: "local_http"@,
        status: "registered"@,
        url: Some(url),
        metadata: json_null(),
    }
}

/// The endpoint of a transport that cannot be used.
pub open spec fn unavailable_endpoint(kind: Seq<char>) -> TransportEndpointView {
    TransportEndpointView {
        kind: kind,
        status: "unavailable"@,
        url: None,
        metadata: json_null(),
    }
}

impl TransportEndpoint {
    pub fn http(url: String) -> (r: Self)
        ensures
            r@ == http_endpoint(url@),
    {
        TransportEndpoint {
            kind: owned("local_http"),
            status: owned("registered"),
            url: Some(url),
            metadata: owned("null"),
        }
    }

    pub fn unavailable(kind: String) -> (r: Self)
        ensures
            r@ == unavailable_endpoint(kind@),
    {
        TransportEndpoint {
            kind,
            status: owned("unavailable"),
            url: None,
            metadata: owned("null"),
        }
    }
}

/// What this node knows about itself.
#[derive(Debug)]
pub struct NodeIdentity {
    pub node_id: String,
    pub role: NodeRole,
    pub display_name: Option<String>,
    pub capabilities: Vec<String>,
    pub connectivity_policy: ConnectivityPolicy,
    pub known_transports: Vec<TransportEndpoint>,
    pub last_seen: Option<String>,
    pub transmission_profile: Option<TransmissionProfile>,
    pub metadata: String,
}

pub struct NodeIdentityView {
    pub node_id: Seq<char>,
    pub role: NodeRole,
    pub display_name: Option<Seq<char>>,
    pub capabilities: Seq<Seq<char>>,
    pub connectivity_policy: ConnectivityPolicyView,
    pub known_transports: Seq<TransportEndpointView>,
    pub last_seen: Option<Seq<char>>,
    pub transmission_profile: Option<TransmissionProfileView>,
    pub metadata: Seq<char>,
}

impl View for NodeIdentity {
    type V = NodeIdentityView;

    open spec fn view(&self) -> NodeIdentityView {
        NodeIdentityView {
            node_id: self.node_id@,
            role: self.role,
            display_name: opt_view(self.display_name),
            capabilities: strings_view(self.capabilities@),
            connectivity_policy: self.connectivity_policy@,
            known_transports: endpoints_view(self.known_transports@),
            last_seen: opt_view(self.last_seen),
            transmission_profile: opt_profile_view(self.transmission_profile),
            metadata: self.metadata@,
        }
    }
}

impl Clone for NodeIdentity {
    fn clone(&self) -> (r: Self)
        ensures
            r@ == self@,
    {
        NodeIdentity {
            node_id: self.node_id.clone(),
            role: self.role,
            display_name: clone_opt_string(&self.display_name),
            capabilities: clone_strings(&self.capabilities),
            connectivity_policy: self.connectivity_policy.clone(),
            known_transports: clone_endpoints(&self.known_transports),
            last_seen: clone_opt_string(&self.last_seen),
            transmission_profile: clone_opt_profile(&self.transmission_profile),
            metadata: self.metadata.clone(),
        }
    }
}

/// Link measurements kept for a peer.
#[derive(Clone, Copy, Debug, PartialEq, Eq, Structural)]
pub struct PeerTelemetry {
    pub rtt_ms: Option<u128>,
    pub ack_delay_ms: u128,
    pub queue_depth: usize,
    pub dropped_messages: u64,
    pub retransmit_count: u64,
    pub rate_limited_count: u64,
}

/// Telemetry of a peer nothing has been measured of yet.
pub open spec fn fresh_telemetry() -> PeerTelemetry {
    PeerTelemetry {
        rtt_ms: None,
        ack_delay_ms: 0,
        queue_depth: 0,
        dropped_messages: 0,
        retransmit_count: 0,
        rate_limited_count: 0,
    }
}

impl Default for PeerTelemetry {
    fn default() -> (r: Self)
        ensures
            r == fresh_telemetry(),
    {
        PeerTelemetry {
            rtt_ms: None,
            ack_delay_ms: 0,
            queue_depth: 0,
            dropped_messages: 0,
            retransmit_count: 0,
            rate_limited_count: 0,
        }
    }
}

/// A known node as the registry stores it.
#[derive(Debug)]
pub struct PeerIdentity {
    pub id: String,
    pub role: NodeRole,
    pub display_name: Option<String>,
    pub url: Option<String>,
    pub status: String,
    pub capabilities: Vec<String>,
    pub transports: Vec<TransportEndpoint>,
    pub last_seen: Option<String>,
    pub latency_ms: Option<u128>,
    pub last_transport: Option<String>,
    pub escalation_state: String,
    pub telemetry: PeerTelemetry,
    pub connectivity_policy: ConnectivityPolicy,
    pub transmission_profile: Option<TransmissionProfile>,
    pub metadata: String,
}

pub struct PeerIdentityView {
    pub id: Seq<char>,
    pub role: NodeRole,
    pub display_name: Option<Seq<char>>,
    pub url: Option<Seq<char>>,
    pub status: Seq<char>,
    pub capabilities: Seq<Seq<char>>,
    pub transports: Seq<TransportEndpointView>,
    pub last_seen: Option<Seq<char>>,
    pub latency_ms: Option<u128>,
    pub last_transport: Option<Seq<char>>,
    pub escalation_state: Seq<char>,
    pub telemetry: PeerTelemetry,
    pub connectivity_policy: ConnectivityPolicyView,
    pub transmission_profile: Option<TransmissionProfileView>,
    pub metadata: Seq<char>,
}

impl View for PeerIdentity {
    type V = PeerIdentityView;

    open spec fn view(&self) -> PeerIdentityView {
        PeerIdentityView {
            id: self.id@,
            role: self.role,
            display_name: opt_view(self.display_name),
            url: opt_view(self.url),
            status: self.status@,
            capabilities: strings_view(self.capabilities@),
            transports: endpoints_view(self.transports@),
            last_seen: opt_view(self.last_seen),
            latency_ms: self.latency_ms,
            last_transport: opt_view(self.last_transport),
            escalation_state: self.escalation_state@,
            telemetry: self.telemetry,
            connectivity_policy: self.connectivity_policy@,
            transmission_profile: opt_profile_view(self.transmission_profile),
            metadata: self.metadata@,
        }
    }
}

impl Clone for PeerIdentity {
    fn clone(&self) -> (r: Self)
        ensures
            r@ == self@,
    {
        PeerIdentity {
            id: self.id.clone(),
            role: self.role,
            display_name: clone_opt_string(&self.display_name),
            url: clone_opt_string(&self.url),
            status: self.status.clone(),
            capabilities: clone_strings(&self.capabilities),
            transports: clone_endpoints(&self.transports),
            last_seen: clone_opt_string(&self.last_seen),
            latency_ms: self.latency_ms,
            last_transport: clone_opt_string(&self.last_transport),
            escalation_state: self.escalation_state.clone(),
            telemetry: self.telemetry,
            connectivity_policy: self.connectivity_policy.clone(),
            transmission_profile: clone_opt_profile(&self.transmission_profile),
            metadata: self.metadata.clone(),
        }
    }
}

/// A peer freshly registered with an HTTP address: a plain peer that can
/// answer pings, reached over local HTTP at `url`, desktop policy, clean
/// profile.
pub open spec fn http_peer(id: Seq<char>, url: Seq<char>) -> PeerIdentityView {
    PeerIdentityView {
        id: id,
        role: NodeRole::Peer,
        display_name: None,
        url: Some(url),
        status: "registered"@,
        capabilities: seq!["core.ping"@, "mesh.control"@],
        transports: seq![http_endpoint(url)],
        last_seen: None,
        latency_ms: None,
        last_transport: None,
        escalation_state: "normal"@,
        telemetry: fresh_telemetry(),
        connectivity_policy: desktop_policy(),
        transmission_profile: Some(clean_arcade_profile()),
        metadata: json_null(),
    }
}

/// A peer freshly registered on a transport this node cannot use yet.
pub open spec fn stub_peer(id: Seq<char>, kind: Seq<char>) -> PeerIdentityView {
    PeerIdentityView {
        id: id,
        role: NodeRole::Peer,
        display_name: None,
        url: None,
        status: "registered"@,
        capabilities: seq!["mesh.control"@],
        transports: seq![unavailable_endpoint(kind)],
        last_seen: None,
        latency_ms: None,
        last_transport: None,
        escalation_state: "normal"@,
        telemetry: fresh_telemetry(),
        connectivity_policy: desktop_policy(),
        transmission_profile: Some(pirate_broadcast_profile()),
        metadata: json_null(),
    }
}

impl PeerIdentity {
    pub fn registered_http(id: String, url: String) -> (r: Self)
        ensures
            r@ == http_peer(id@, url@),
    {
        let mut capabilities: Vec<String> = Vec::new();
        capabilities.push(owned("core.ping"));
        capabilities.push(owned("mesh.control"));
        let mut transports: Vec<TransportEndpoint> = Vec::new();
        transports.push(TransportEndpoint::http(url.clone()));
        let r = PeerIdentity {
            id,
            role: NodeRole::Peer,
            display_name: None,
            url: Some(url),
            status: owned("registered"),
            capabilities,
            transports,
            last_seen: None,
            latency_ms: None,
            last_transport: None,
            escalation_state: owned("normal"),
            telemetry: PeerTelemetry::default(),
            connectivity_policy: ConnectivityPolicy::desktop_default(),
            transmission_profile: Some(TransmissionProfile::clean_arcade()),
            metadata: owned("null"),
        };
        assert(r@.capabilities =~= http_peer(id@, url@).capabilities);
        assert(r@.transports =~= http_peer(id@, url@).transports);
        r
    }

    pub fn registered_stub(id: String, kind: String) -> (r: Self)
        ensures
            r@ == stub_peer(id@, kind@),
    {
        let mut capabilities: Vec<String> = Vec::new();
        capabilities.push(owned("mesh.control"));
        let mut transports: Vec<TransportEndpoint> = Vec::new();
        let ghost k = kind@;
        transports.push(TransportEndpoint::unavailable(kind));
        let r = PeerIdentity {
            id,
            role: NodeRole::Peer,
            display_name: None,
            url: None,
            status: owned("registered"),
            capabilities,
            transports,
            last_seen: None,
            latency_ms: None,
            last_transport: None,
            escalation_state: owned("normal"),
            telemetry: PeerTelemetry::default(),
            connectivity_policy: ConnectivityPolicy::desktop_default(),
            transmission_profile: Some(TransmissionProfile::pirate_broadcast()),
            metadata: owned("null"),
        };
        assert(r@.capabilities =~= stub_peer(id@, k).capabilities);
        assert(r@.transports =~= stub_peer(id@, k).transports);
        r
    }
}

/// A peer as the public API lists it: the registry record without its
/// metadata.
#[derive(Debug)]
pub struct MeshPeer {
    pub id: String,
    pub role: NodeRole,
    pub display_name: Option<String>,
    pub url: Option<String>,
    pub status: String,
    pub capabilities: Vec<String>,
    pub transports: Vec<TransportEndpoint>,
    pub last_seen: Option<String>,
    pub latency_ms: Option<u128>,
    pub last_transport: Option<String>,
    pub escalation_state: String,
    pub telemetry: PeerTelemetry,
    pub connectivity_policy: ConnectivityPolicy,
    pub transmission_profile: Option<TransmissionProfile>,
}

/// The listing of a peer record: every field but the metadata, unchanged.
pub open spec fn listed(p: PeerIdentity) -> MeshPeer {
    MeshPeer {
        id: p.id,
        role: p.role,
        display_name: p.display_name,
        url: p.url,
        status: p.status,
        capabilities: p.capabilities,
        transports: p.transports,
        last_seen: p.last_seen,
        latency_ms: p.latency_ms,
        last_transport: p.last_transport,
        escalation_state: p.escalation_state,
        telemetry: p.telemetry,
        connectivity_policy: p.connectivity_policy,
        transmission_profile: p.transmission_profile,
    }
}

impl From<PeerIdentity> for MeshPeer {
    fn from(peer: PeerIdentity) -> (r: Self) {
        MeshPeer {
            id: peer.id,
            role: peer.role,
            display_name: peer.display_name,
            url: peer.url,
            status: peer.status,
            capabilities: peer.capabilities,
            transports: peer.transports,
            last_seen: peer.last_seen,
            latency_ms: peer.latency_ms,
            last_transport: peer.last_transport,
            escalation_state: peer.escalation_state,
            telemetry: peer.telemetry,
            connectivity_policy: peer.connectivity_policy,
            transmission_profile: peer.transmission_profile,
        }
    }
}

impl vstd::std_specs::convert::FromSpecImpl<PeerIdentity> for MeshPeer {
    open spec fn obeys_from_spec() -> bool {
        true
    }

    open spec fn from_spec(peer: PeerIdentity) -> MeshPeer {
        listed(peer)
    }
}

/// A request to register a peer. `metadata` holds JSON text.
#[derive(Debug)]
pub struct RegisterPeerRequest {
    pub id: String,
    pub role: Option<NodeRole>,
    pub url: Option<String>,
    pub display_name: Option<String>,
    pub transport: Option<String>,
    pub transports: Vec<TransportEndpoint>,
    pub capabilities: Vec<String>,
    pub transmission_profile: Option<TransmissionProfile>,
    pub connectivity_policy: Option<ConnectivityPolicy>,
    pub metadata: String,
}

pub struct RegisterPeerRequestView {
    pub id: Seq<char>,
    pub role: Option<NodeRole>,
    pub url: Option<Seq<char>>,
    pub display_name: Option<Seq<char>>,
    pub transport: Option<Seq<char>>,
    pub transports: Seq<TransportEndpointView>,
    pub capabilities: Seq<Seq<char>>,
    pub transmission_profile: Option<TransmissionProfileView>,
    pub connectivity_policy: Option<ConnectivityPolicyView>,
    pub metadata: Seq<char>,
}

pub open spec fn opt_policy_view(p: Option<ConnectivityPolicy>) -> Option<ConnectivityPolicyView> {
    match p {
        Some(x) => Some(x@),
        None => None,
    }
}

impl View for RegisterPeerRequest {
    type V = RegisterPeerRequestView;

    open spec fn view(&self) -> RegisterPeerRequestView {
        RegisterPeerRequestView {
            id: self.id@,
            role: self.role,
            url: opt_view(self.url),
            display_name: opt_view(self.display_name),
            transport: opt_view(self.transport),
            transports: endpoints_view(self.transports@),
            capabilities: strings_view(self.capabilities@),
            transmission_profile: opt_profile_view(self.transmission_profile),
            connectivity_policy: opt_policy_view(self.connectivity_policy),
            metadata: self.metadata@,
        }
    }
}

pub struct MeshPeerView {
    pub id: Seq<char>,
    pub role: NodeRole,
    pub display_name: Option<Seq<char>>,
    pub url: Option<Seq<char>>,
    pub status: Seq<char>,
    pub capabilities: Seq<Seq<char>>,
    pub transports: Seq<TransportEndpointView>,
    pub last_seen: Option<Seq<char>>,
    pub latency_ms: Option<u128>,
    pub last_transport: Option<Seq<char>>,
    pub escalation_state: Seq<char>,
    pub telemetry: PeerTelemetry,
    pub connectivity_policy: ConnectivityPolicyView,
    pub transmission_profile: Option<TransmissionProfileView>,
}

impl View for MeshPeer {
    type V = MeshPeerView;

    open spec fn view(&self) -> MeshPeerView {
        MeshPeerView {
            id: self.id@,
            role: self.role,
            display_name: opt_view(self.display_name),
            url: opt_view(self.url),
            status: self.status@,
            capabilities: strings_view(self.capabilities@),
            transports: endpoints_view(self.transports@),
            last_seen: opt_view(self.last_seen),
            latency_ms: self.latency_ms,
            last_transport: opt_view(self.last_transport),
            escalation_state: self.escalation_state@,
            telemetry: self.telemetry,
            connectivity_policy: self.connectivity_policy@,
            transmission_profile: opt_profile_view(self.transmission_profile),
        }
    }
}

/// The listing of a peer record: every field but the metadata.
pub open spec fn listed_view(p: PeerIdentityView) -> MeshPeerView {
    MeshPeerView {
        id: p.id,
        role: p.role,
        display_name: p.display_name,
        url: p.url,
        status: p.status,
        capabilities: p.capabilities,
        transports: p.transports,
        last_seen: p.last_seen,
        latency_ms: p.latency_ms,
        last_transport: p.last_transport,
        escalation_state: p.escalation_state,
        telemetry: p.telemetry,
        connectivity_policy: p.connectivity_policy,
        transmission_profile: p.transmission_profile,
    }
}

} // verus!
