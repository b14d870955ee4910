//! The decisions behind the node's HTTP API: what it advertises, how it
//! checks the addresses it is given, what a connection registers, which
//! status answers an error, how events are named, and where it listens.
use crate::mesh::envelope::{json_str, push_json_str, push_uuid_text, uuid_text};
use crate::mesh::identity::{
    clone_opt_profile, clone_strings, opt_view, owned, NodeIdentity, NodeIdentityView,
    RegisterPeerRequest, RegisterPeerRequestView, TransportEndpointView,
};
use crate::mesh::transports::local_http::{parse_http_url, parsed_http_url};
use crate::platform::new_message_id;
use crate::text::{
    blank, chars_of, is_blank, parse_u16, parse_u16_chars, str_eq, trim, trim_end_char,
    trim_end_char_str, trim_str,
};
use vstd::prelude::*;

verus! {

broadcast use vstd::string::group_string_axioms;

/// Port the node listens on when none is configured.
pub const DEFAULT_PORT: u16 = 17321;

/// A capability the node advertises.
#[derive(Debug)]
pub struct Capability {
    pub id: &'static str,
    pub version: &'static str,
    pub description: &'static str,
}

/// The capabilities every node advertises: id, version, description.
pub open spec fn capability_table() -> Seq<(Seq<char>, Seq<char>, Seq<char>)> {
    seq![
        ("core.health"@, "1"@, "Health check endpoint."@),
        ("core.events"@, "1"@, "Server-sent events stream."@),
        ("core.ping"@, "1"@, "Emit a ping event."@),
        ("plugins.registry"@, "1"@, "Register external dist apps (platform surfaces)."@),
        ("scene-control"@, "1"@, "Live scene ambience and object switch control."@),
        ("mesh.peers"@, "0"@, "Prototype mesh peer registry and remote ping."@),
        (
            "mesh.connect"@,
            "0"@,
            "Manual node-to-node connection handshake over an available transport."@,
        ),
        ("mesh.protocol"@, "0"@, "Versioned local-first mesh protocol envelope and router."@),
        ("mesh.stream"@, "0"@, "Text stream sessions with ACK/NACK, backpressure, and error control."@),
        (
            "scene.layers"@,
            "0"@,
            "Dynamic scene layers for media embeds, effects, artwork, and data panels."@,
        ),
    ]
}

pub open spec fn capability_view(c: Capability) -> (Seq<char>, Seq<char>, Seq<char>) {
    (c.id@, c.version@, c.description@)
}

/// The capabilities every node advertises, in a fixed order.
pub fn base_capabilities() -> (r: Vec<Capability>)
    ensures
        r@.map_values(|c: Capability| capability_view(c)) == capability_table(),
{
    let mut r: Vec<Capability> = Vec::new();
    r.push(Capability { id: "core.health", version: "1", description: "Health check endpoint." });
    r.push(
        Capability { id: "core.events", version: "1", description: "Server-sent events stream." },
    );
    r.push(Capability { id: "core.ping", version: "1", description: "Emit a ping event." });
    r.push(
        Capability {
            id: "plugins.registry",
            version: "1",
            description: "Register external dist apps (platform surfaces).",
        },
    );
    r.push(
        Capability {
            id: "scene-control",
            version: "1",
            description: "Live scene ambience and object switch control.",
        },
    );
    r.push(
        Capability {
            id: "mesh.peers",
            version: "0",
            description: "Prototype mesh peer registry and remote ping.",
        },
    );
    r.push(
        Capability {
            id: "mesh.connect",
            version: "0",
            description: "Manual node-to-node connection handshake over an available transport.",
        },
    );
    r.push(
        Capability {
            id: "mesh.protocol",
            version: "0",
            description: "Versioned local-first mesh protocol envelope and router.",
        },
    );
    r.push(
        Capability {
            id: "mesh.stream",
            version: "0",
            description: "Text stream sessions with ACK/NACK, backpressure, and error control.",
        },
    );
    r.push(
        Capability {
            id: "scene.layers",
            version: "0",
            description: "Dynamic scene layers for media embeds, effects, artwork, and data panels.",
        },
    );
    assert(r@.map_values(|c: Capability| capability_view(c)) =~= capability_table());
    r
}

/* Connecting to another node. */

/// The address a connection is made to: trimmed, without trailing
/// slashes; it must not be empty and must be an HTTP URL.
pub open spec fn connect_address(raw: Seq<char>) -> Result<Seq<char>, Seq<char>> {
    let url = trim_end_char(trim(raw), '/');
    if url.len() == 0 {
        Err("peer_url_required"@)
    } else if parsed_http_url(url) is Err {
        Err("peer_url_must_be_http_url"@)
    } else {
        Ok(url)
    }
}

pub open spec fn text_result(r: Result<String, String>) -> Result<Seq<char>, Seq<char>> {
    match r {
        Ok(s) => Ok(s@),
        Err(e) => Err(e@),
    }
}

pub fn connect_url(raw: &str) -> (r: Result<String, String>)
    ensures
        text_result(r) == connect_address(raw@),
{
    let t = trim_str(raw);
    let url = trim_end_char_str(t.as_str(), '/');
    if url.as_str().is_empty() {
        return Err(owned("peer_url_required"));
    }
    match parse_http_url(url.as_str()) {
        Err(_) => Err(owned("peer_url_must_be_http_url")),
        Ok(_) => Ok(url),
    }
}

/// The check on the address of a peer registered by hand: an address
/// that is given and not blank must be an HTTP URL once trailing slashes
/// are dropped.
pub open spec fn peer_address_check(url: Option<Seq<char>>) -> Result<(), Seq<char>> {
    match url {
        Some(u) => if trim(u).len() > 0 && parsed_http_url(trim_end_char(trim(u), '/')) is Err {
            Err("peer_url_must_be_http_url"@)
        } else {
            Ok(())
        },
        None => Ok(()),
    }
}

pub open spec fn unit_result(r: Result<(), String>) -> Result<(), Seq<char>> {
    match r {
        Ok(()) => Ok(()),
        Err(e) => Err(e@),
    }
}

pub fn check_peer_url(url: &Option<String>) -> (r: Result<(), String>)
    ensures
        unit_result(r) == peer_address_check(opt_view(*url)),
{
    match url {
        Some(u) => {
            let t = trim_str(u.as_str());
            if t.as_str().is_empty() {
                return Ok(());
            }
            let stripped = trim_end_char_str(t.as_str(), '/');
            match parse_http_url(stripped.as_str()) {
                Err(_) => Err(owned("peer_url_must_be_http_url")),
                Ok(_) => Ok(()),
            }
        },
        None => Ok(()),
    }
}

/// The metadata a connection records: how the peer was reached and the id
/// it gave.
pub open spec fn connect_metadata(remote_node_id: Seq<char>) -> Seq<char> {
    "{\"connectedVia\":\"manual_http\",\"remoteNodeId\":"@ + json_str(remote_node_id) + "}"@
}

/// The registration a connection makes for the node found at `url`: the
/// requested id (trimmed) or the id the node gave, the requested display
/// name or the node's, and what the node says of itself; it is reached
/// over local HTTP. A node that does not answer `ok` is refused.
pub open spec fn connect_request(
    url: Seq<char>,
    requested_id: Option<Seq<char>>,
    display_name: Option<Seq<char>>,
    remote_ok: bool,
    remote_node_id: Seq<char>,
    remote_node: Option<NodeIdentityView>,
) -> Result<RegisterPeerRequestView, Seq<char>> {
    if !remote_ok {
        Err("peer_node_not_ok"@)
    } else {
        let id = match requested_id {
            Some(i) => if trim(i).len() > 0 {
                trim(i)
            } else {
                remote_node_id
            },
            None => remote_node_id,
        };
        Ok(
            RegisterPeerRequestView {
                id: id,
                role: match remote_node {
                    Some(n) => Some(n.role),
                    None => None,
                },
                url: Some(url),
                display_name: match display_name {
                    Some(d) => Some(d),
                    None => match remote_node {
                        Some(n) => n.display_name,
                        None => None,
                    },
                },
                transport: Some("local_http"@),
                transports: Seq::<TransportEndpointView>::empty(),
                capabilities: match remote_node {
                    Some(n) => n.capabilities,
                    None => seq!["mesh.control"@, "core.ping"@],
                },
                transmission_profile: match remote_node {
                    Some(n) => n.transmission_profile,
                    None => None,
                },
                connectivity_policy: match remote_node {
                    Some(n) => Some(n.connectivity_policy),
                    None => None,
                },
                metadata: connect_metadata(remote_node_id),
            },
        )
    }
}

pub open spec fn opt_node_view(n: Option<NodeIdentity>) -> Option<NodeIdentityView> {
    match n {
        Some(x) => Some(x@),
        None => None,
    }
}

pub open spec fn request_result(r: Result<RegisterPeerRequest, String>) -> Result<
    RegisterPeerRequestView,
    Seq<char>,
> {
    match r {
        Ok(q) => Ok(q@),
        Err(e) => Err(e@),
    }
}

pub fn connect_registration(
    url: String,
    requested_id: Option<String>,
    display_name: Option<String>,
    remote_ok: bool,
    remote_node_id: String,
    remote_node: Option<NodeIdentity>,
) -> (r: Result<RegisterPeerRequest, String>)
    ensures
        request_result(r) == connect_request(
            url@,
            opt_view(requested_id),
            opt_view(display_name),
            remote_ok,
            remote_node_id@,
            opt_node_view(remote_node),
        ),
{
    if !remote_ok {
        return Err(owned("peer_node_not_ok"));
    }
    let id = match &requested_id {
        Some(i) => {
            let t = trim_str(i.as_str());
            if t.as_str().is_empty() {
                remote_node_id.clone()
            } else {
                t
            }
        },
        None => remote_node_id.clone(),
    };
    let mut metadata = owned("{\"connectedVia\":\"manual_http\",\"remoteNodeId\":");
    push_json_str(&mut metadata, remote_node_id.as_str());
    metadata.append("}");
    let display_name = match display_name {
        Some(d) => Some(d),
        None => match &remote_node {
            Some(n) => crate::mesh::identity::clone_opt_string(&n.display_name),
            None => None,
        },
    };
    let r = match &remote_node {
        Some(n) => RegisterPeerRequest {
            id,
            role: Some(n.role),
            url: Some(url),
            display_name,
            transport: Some(owned("local_http")),
            transports: Vec::new(),
            capabilities: clone_strings(&n.capabilities),
            transmission_profile: clone_opt_profile(&n.transmission_profile),
            connectivity_policy: Some(n.connectivity_policy.clone()),
            metadata,
        },
        None => {
            let mut capabilities: Vec<String> = Vec::new();
            capabilities.push(owned("mesh.control"));
            capabilities.push(owned("core.ping"));
            RegisterPeerRequest {
                id,
                role: None,
                url: Some(url),
                display_name,
                transport: Some(owned("local_http")),
                transports: Vec::new(),
                capabilities,
                transmission_profile: None,
                connectivity_policy: None,
                metadata,
            }
        },
    };
    proof {
        let want = connect_request(
            url@,
            opt_view(requested_id),
            opt_view(display_name),
            remote_ok,
            remote_node_id@,
            opt_node_view(remote_node),
        );
        assert(r@.transports =~= want->Ok_0.transports);
        assert(r@.capabilities =~= want->Ok_0.capabilities);
        assert(r@.metadata =~= want->Ok_0.metadata);
    }
    Ok(r)
}

/* Answering errors. */

/// The HTTP status that answers a failed ping of a peer.
pub open spec fn ping_error_code(error: Seq<char>) -> u16 {
    if error == "peer_not_found"@ {
        404
    } else if error == "peer_rate_limited"@ {
        429
    } else if error == "peer_transport_unavailable"@ {
        400
    } else {
        502
    }
}

pub fn ping_error_status(error: &str) -> (r: u16)
    ensures
        r == ping_error_code(error@),
{
    if str_eq(error, "peer_not_found") {
        404
    } else if str_eq(error, "peer_rate_limited") {
        429
    } else if str_eq(error, "peer_transport_unavailable") {
        400
    } else {
        502
    }
}

/// The HTTP status that answers an envelope that was not taken in.
pub open spec fn receive_error_code(error: Seq<char>) -> u16 {
    if error == "peer_rate_limited"@ {
        429
    } else if error == "payload_too_large"@ || error == "invalid_envelope"@ || error
        == "unsupported_protocol_version"@ {
        400
    } else {
        502
    }
}

pub fn receive_error_status(error: &str) -> (r: u16)
    ensures
        r == receive_error_code(error@),
{
    if str_eq(error, "peer_rate_limited") {
        429
    } else if str_eq(error, "payload_too_large") || str_eq(error, "invalid_envelope") || str_eq(
        error,
        "unsupported_protocol_version",
    ) {
        400
    } else {
        502
    }
}

/* Events. */

/// The name an event goes out under: ping signals and scene updates by
/// their kind, anything else unnamed.
pub open spec fn event_name_of(kind: Seq<char>) -> Option<Seq<char>> {
    if crate::text::starts_with(kind, "core.ping."@) {
        Some(kind)
    } else if kind == "scene.state.updated"@ {
        Some("scene.state.updated"@)
    } else {
        None
    }
}

pub fn event_name(kind: &str) -> (r: Option<String>)
    ensures
        opt_view(r) == event_name_of(kind@),
{
    let v = chars_of(kind);
    let p = chars_of("core.ping.");
    if crate::text::exec_matches_at(v.as_slice(), 0, p.as_slice()) {
        Some(owned(kind))
    } else if str_eq(kind, "scene.state.updated") {
        Some(owned("scene.state.updated"))
    } else {
        None
    }
}

/* Registering apps. */

/// An app registration: the id is trimmed and must not be empty; the app
/// type, `platform` when none is given, is trimmed.
pub open spec fn app_registration_spec(id: Seq<char>, app_type: Option<Seq<char>>) -> Result<
    (Seq<char>, Seq<char>),
    Seq<char>,
> {
    if trim(id).len() == 0 {
        Err("id_required"@)
    } else {
        Ok(
            (
                trim(id),
                trim(
                    match app_type {
                        Some(t) => t,
                        None => "platform"@,
                    },
                ),
            ),
        )
    }
}

pub open spec fn pair_result(r: Result<(String, String), String>) -> Result<(Seq<char>, Seq<char>), Seq<char>> {
    match r {
        Ok((a, b)) => Ok((a@, b@)),
        Err(e) => Err(e@),
    }
}

pub fn app_registration(id: &str, app_type: Option<String>) -> (r: Result<(String, String), String>)
    ensures
        pair_result(r) == app_registration_spec(id@, opt_view(app_type)),
{
    let trimmed = trim_str(id);
    if trimmed.as_str().is_empty() {
        return Err(owned("id_required"));
    }
    let kind = match app_type {
        Some(t) => t,
        None => owned("platform"),
    };
    Ok((trimmed, trim_str(kind.as_str())))
}

/* Where the node listens and what it is called. */

/// The node's id: the configured value when it is not blank, otherwise
/// `node-` and the text of a fresh id.
pub open spec fn node_id_choice(configured: Option<Seq<char>>, fresh: u128) -> Seq<char> {
    match configured {
        Some(v) => if is_blank(v) {
            "node-"@ + uuid_text(fresh)
        } else {
            v
        },
        None => "node-"@ + uuid_text(fresh),
    }
}

pub fn node_id_or(configured: Option<String>, fresh: u128) -> (r: String)
    ensures
        r@ == node_id_choice(opt_view(configured), fresh),
{
    match configured {
        Some(v) => if blank(v.as_str()) {
            let mut out = owned("node-");
            push_uuid_text(&mut out, fresh);
            out
        } else {
            v
        },
        None => {
            let mut out = owned("node-");
            push_uuid_text(&mut out, fresh);
            out
        },
    }
}

/// The node's id, with a fresh random id where none is configured.
pub fn default_node_id(configured: Option<String>) -> (r: String)
    ensures
        exists|fresh: u128| #[trigger] node_id_choice(opt_view(configured), fresh) == r@,
{
    let fresh = new_message_id();
    node_id_or(configured, fresh)
}

/// The port to listen on: the configured value when it reads as a port
/// number, otherwise the default.
pub open spec fn port_choice(configured: Option<Seq<char>>) -> u16 {
    match configured {
        Some(v) => match parse_u16(v) {
            Some(p) => p,
            None => DEFAULT_PORT,
        },
        None => DEFAULT_PORT,
    }
}

pub fn port_or_default(configured: Option<String>) -> (r: u16)
    ensures
        r == port_choice(opt_view(configured)),
{
    match configured {
        Some(v) => {
            let c = chars_of(v.as_str());
            assert(c@.subrange(0, c@.len() as int) =~= c@);
            match parse_u16_chars(c.as_slice(), 0, c.len()) {
                Some(p) => p,
                None => DEFAULT_PORT,
            }
        },
        None => DEFAULT_PORT,
    }
}

} // verus!
