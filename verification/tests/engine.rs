use master_program::mesh::engine::{
    escalation_state, lane_for_message, node_capabilities, peer_from_request, MeshEngine,
};
use master_program::mesh::envelope::{PayloadType, ProtocolEnvelope};
use master_program::mesh::identity::{NodeRole, PeerIdentity, RegisterPeerRequest, TransportEndpoint};
use master_program::mesh::rate_limit::RateLane;
use master_program::mesh::transports::loopback::LoopbackTransport;
use master_program::mesh::transports::stubs::StubTransport;

fn ping_envelope() -> ProtocolEnvelope {
    ProtocolEnvelope::new(
        "node-b".to_string(),
        Some("node-a".to_string()),
        "core.ping".to_string(),
        PayloadType::Json,
        "{\"message\":\"hi\"}".to_string(),
    )
}

fn stub_request(id: &str, transport: Option<&str>) -> RegisterPeerRequest {
    RegisterPeerRequest {
        id: id.to_string(),
        url: None,
        display_name: None,
        transport: transport.map(|t| t.to_string()),
        transports: vec![],
        capabilities: vec![],
        transmission_profile: None,
        role: None,
        connectivity_policy: None,
        metadata: "null".to_string(),
    }
}

#[test]
fn receives_envelope_once_and_deduplicates_replay() {
    let mut engine: MeshEngine<LoopbackTransport> = MeshEngine::new("node-a".to_string(), None);
    let env = ping_envelope();

    assert_eq!(engine.receive(env.clone()).unwrap(), true);
    assert_eq!(engine.receive(env).unwrap(), false);
}

#[test]
fn rejects_ttl_exhausted_receive() {
    let mut engine: MeshEngine<LoopbackTransport> = MeshEngine::new("node-a".to_string(), None);
    let mut env = ping_envelope();
    env.ttl = 1;
    env.hop_count = 1;

    assert_eq!(engine.receive(env).unwrap_err(), "ttl_exhausted");
}

#[test]
fn sends_ping_over_loopback_transport() {
    let mut engine: MeshEngine<LoopbackTransport> = MeshEngine::new("node-a".to_string(), None);
    engine.register_transport(LoopbackTransport::default());
    engine
        .register_peer_request(stub_request("node-b", Some("loopback")))
        .unwrap();

    let outcome = engine.ping_peer("node-b").unwrap();
    assert!(outcome.ok);
    assert_eq!(engine.transport_mut("loopback").unwrap().drain().len(), 1);
}

#[test]
fn replay_within_ttl_is_not_new_at_given_times() {
    let mut engine: MeshEngine<LoopbackTransport> = MeshEngine::new("node-a".to_string(), None);
    let env = ping_envelope();
    assert_eq!(engine.receive_at(&env, 1_000), Ok(true));
    assert_eq!(engine.receive_at(&env, 119_000_000_000), Ok(false));
}

#[test]
fn replay_after_ttl_is_new_again() {
    let mut engine: MeshEngine<LoopbackTransport> = MeshEngine::new("node-a".to_string(), None);
    let env = ping_envelope();
    assert_eq!(engine.receive_at(&env, 0), Ok(true));
    assert_eq!(engine.receive_at(&env, 120_000_000_001), Ok(true));
}

#[test]
fn receive_refuses_invalid_envelope() {
    let mut engine: MeshEngine<LoopbackTransport> = MeshEngine::new("node-a".to_string(), None);
    let mut env = ping_envelope();
    env.source_node_id = "   ".to_string();
    assert_eq!(engine.receive_at(&env, 0).unwrap_err(), "source_node_id_required");
    let mut env = ping_envelope();
    env.protocol_version = "mesh.v1".to_string();
    assert_eq!(engine.receive_at(&env, 0).unwrap_err(), "unsupported_protocol_version");
}

#[test]
fn receive_rate_limits_control_burst() {
    let mut engine: MeshEngine<LoopbackTransport> = MeshEngine::new("node-a".to_string(), None);
    for _ in 0..40 {
        let env = ping_envelope();
        assert_eq!(engine.receive_at(&env, 5), Ok(true));
    }
    let env = ping_envelope();
    assert_eq!(engine.receive_at(&env, 5).unwrap_err(), "peer_rate_limited");
}

#[test]
fn send_refuses_duplicate_message() {
    let mut engine: MeshEngine<LoopbackTransport> = MeshEngine::new("node-a".to_string(), None);
    engine.register_transport(LoopbackTransport::default());
    let peer = PeerIdentity::registered_stub("node-b".to_string(), "loopback".to_string());
    let env = ping_envelope();
    assert!(engine.send_to_peer(env.clone(), peer.clone()).is_ok());
    assert_eq!(engine.send_to_peer(env, peer).unwrap_err(), "duplicate_message");
}

#[test]
fn send_without_usable_transport_is_refused() {
    let mut engine: MeshEngine<LoopbackTransport> = MeshEngine::new("node-a".to_string(), None);
    let peer = PeerIdentity::registered_stub("node-b".to_string(), "bluetooth".to_string());
    assert_eq!(
        engine.send_to_peer(ping_envelope(), peer).unwrap_err(),
        "peer_transport_unavailable"
    );
}

#[test]
fn send_over_stub_transport_marks_peer_offline() {
    let mut engine: MeshEngine<StubTransport> = MeshEngine::new("node-a".to_string(), None);
    engine.register_transport(StubTransport::bluetooth());
    engine
        .register_peer_request(stub_request("node-b", Some("bluetooth")))
        .unwrap();
    assert_eq!(engine.ping_peer("node-b").unwrap_err(), "transport_unavailable");
    let peers = engine.list_peers();
    assert_eq!(peers.len(), 1);
    assert_eq!(peers[0].status, "offline: transport_unavailable");
    assert_eq!(peers[0].telemetry.dropped_messages, 1);
    assert_eq!(peers[0].escalation_state, "warn");
}

#[test]
fn ping_of_unknown_peer_is_not_found() {
    let mut engine: MeshEngine<LoopbackTransport> = MeshEngine::new("node-a".to_string(), None);
    assert_eq!(engine.ping_peer("ghost").unwrap_err(), "peer_not_found");
}

#[test]
fn successful_send_marks_peer_online() {
    let mut engine: MeshEngine<LoopbackTransport> = MeshEngine::new("node-a".to_string(), None);
    engine.register_transport(LoopbackTransport::default());
    engine
        .register_peer_request(stub_request("node-b", Some("loopback")))
        .unwrap();
    let outcome = engine.ping_peer("node-b").unwrap();
    assert_eq!(outcome.peer.status, "online");
    assert_eq!(outcome.peer.last_transport.as_deref(), Some("loopback"));
    assert!(outcome.peer.latency_ms.is_some());
    assert_eq!(outcome.peer.telemetry.rtt_ms, outcome.peer.latency_ms);
    assert_eq!(outcome.peer.escalation_state, "normal");
}

#[test]
fn registering_transport_twice_keeps_one_entry() {
    let mut engine: MeshEngine<LoopbackTransport> = MeshEngine::new("node-a".to_string(), None);
    engine.register_transport(LoopbackTransport::default());
    engine.register_transport(LoopbackTransport::default());
    assert_eq!(engine.transport_statuses().len(), 1);
}

#[test]
fn peers_are_listed_in_id_order() {
    let mut engine: MeshEngine<LoopbackTransport> = MeshEngine::new("node-a".to_string(), None);
    engine.register_peer_request(stub_request("zeta", None)).unwrap();
    engine.register_peer_request(stub_request("alpha", None)).unwrap();
    engine.register_peer_request(stub_request("mid", None)).unwrap();
    let ids: Vec<String> = engine.list_peers().into_iter().map(|p| p.id).collect();
    assert_eq!(ids, vec!["alpha", "mid", "zeta"]);
}

#[test]
fn registration_requires_an_id() {
    assert_eq!(peer_from_request(stub_request("  ", None)).unwrap_err(), "peer_id_required");
}

#[test]
fn registration_with_url_is_http_peer() {
    let mut req = stub_request(" m1 ", None);
    req.url = Some(" http://192.168.100.7:17321// ".to_string());
    let peer = peer_from_request(req).unwrap();
    assert_eq!(peer.id, "m1");
    assert_eq!(peer.url.as_deref(), Some("http://192.168.100.7:17321"));
    assert_eq!(peer.transports.len(), 1);
    assert_eq!(peer.transports[0].kind, "local_http");
    assert_eq!(peer.capabilities, vec!["core.ping", "mesh.control"]);
}

#[test]
fn registration_without_url_is_unavailable_transport() {
    let mut req = stub_request("m1", Some("bluetooth"));
    req.display_name = Some("MacBook M1".to_string());
    let peer = peer_from_request(req).unwrap();
    assert_eq!(peer.url, None);
    assert_eq!(peer.transports[0].kind, "bluetooth");
    assert_eq!(peer.transports[0].status, "unavailable");
    assert_eq!(peer.display_name.as_deref(), Some("MacBook M1"));
}

#[test]
fn registration_uses_first_endpoint_kind_and_adds_role_capability() {
    let mut req = stub_request("m2", None);
    req.transports = vec![TransportEndpoint::unavailable("serial".to_string())];
    req.capabilities = vec!["x.cap".to_string()];
    req.role = Some(NodeRole::Relay);
    req.display_name = Some("   ".to_string());
    let peer = peer_from_request(req).unwrap();
    assert_eq!(peer.transports[0].kind, "serial");
    assert_eq!(peer.role, NodeRole::Relay);
    assert_eq!(peer.capabilities, vec!["x.cap", "mesh.relay"]);
    assert_eq!(peer.display_name, None);
}

#[test]
fn node_capabilities_are_sorted_and_unique() {
    let caps = node_capabilities(NodeRole::Coordinator);
    assert_eq!(
        caps,
        vec![
            "catalog.consumer",
            "catalog.publisher",
            "mesh.control",
            "mesh.relay",
            "mesh.stream",
            "resource.suggest",
            "scene.coordinator",
            "scene.layers",
        ]
    );
    let caps = node_capabilities(NodeRole::Catalog);
    assert_eq!(
        caps,
        vec![
            "catalog.consumer",
            "catalog.publisher",
            "mesh.control",
            "mesh.stream",
            "resource.suggest",
            "scene.layers",
        ]
    );
}

#[test]
fn new_engine_describes_its_node() {
    let engine: MeshEngine<LoopbackTransport> =
        MeshEngine::new("node-a".to_string(), Some("master-program".to_string()));
    let node = engine.node();
    assert_eq!(node.node_id, "node-a");
    assert_eq!(node.display_name.as_deref(), Some("master-program"));
    assert_eq!(node.role, NodeRole::Peer);
    assert_eq!(
        node.capabilities,
        vec!["catalog.consumer", "mesh.control", "mesh.peer", "mesh.stream", "scene.layers"]
    );
    assert_eq!(node.metadata, "null");
}

#[test]
fn lanes_and_escalation() {
    assert_eq!(lane_for_message("stream.chunk"), RateLane::Stream);
    assert_eq!(lane_for_message("core.ping"), RateLane::Control);
    let mut peer = PeerIdentity::registered_stub("p".to_string(), "x".to_string());
    assert_eq!(escalation_state(&peer), "normal");
    peer.telemetry.rtt_ms = Some(81);
    assert_eq!(escalation_state(&peer), "warn");
    peer.telemetry.rtt_ms = Some(121);
    assert_eq!(escalation_state(&peer), "throttle");
    peer.telemetry.rtt_ms = Some(10);
    peer.telemetry.queue_depth = 33;
    assert_eq!(escalation_state(&peer), "degrade");
    peer.telemetry.dropped_messages = 9;
    assert_eq!(escalation_state(&peer), "fail_safe");
}
