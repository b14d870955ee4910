use master_program::api::{
    app_registration, base_capabilities, check_peer_url, connect_registration, connect_url,
    event_name, node_id_or, ping_error_status, port_or_default, receive_error_status,
    default_node_id, DEFAULT_PORT,
};
use master_program::mesh::identity::{ConnectivityPolicy, NodeIdentity, NodeRole, TransmissionProfile};

#[test]
fn advertises_base_capabilities() {
    let caps = base_capabilities();
    let ids: Vec<&str> = caps.iter().map(|c| c.id).collect();
    assert_eq!(
        ids,
        vec![
            "core.health",
            "core.events",
            "core.ping",
            "plugins.registry",
            "scene-control",
            "mesh.peers",
            "mesh.connect",
            "mesh.protocol",
            "mesh.stream",
            "scene.layers",
        ]
    );
    assert_eq!(caps[0].version, "1");
    assert_eq!(caps[5].version, "0");
    assert_eq!(caps[2].description, "Emit a ping event.");
}

#[test]
fn connect_url_is_checked() {
    assert_eq!(connect_url("  http://192.168.100.7:17321/ ").unwrap(), "http://192.168.100.7:17321");
    assert_eq!(connect_url("  / ").unwrap_err(), "peer_url_required");
    assert_eq!(connect_url("ftp://x").unwrap_err(), "peer_url_must_be_http_url");
    assert!(check_peer_url(&None).is_ok());
    assert!(check_peer_url(&Some("   ".to_string())).is_ok());
    assert!(check_peer_url(&Some("http://a:1//".to_string())).is_ok());
    assert_eq!(
        check_peer_url(&Some("nope".to_string())).unwrap_err(),
        "peer_url_must_be_http_url"
    );
}

#[test]
fn connect_registration_uses_remote_node() {
    let remote = NodeIdentity {
        node_id: "remote".to_string(),
        role: NodeRole::Relay,
        display_name: Some("Remote".to_string()),
        capabilities: vec!["mesh.relay".to_string()],
        connectivity_policy: ConnectivityPolicy::mobile_default(),
        known_transports: vec![],
        last_seen: None,
        transmission_profile: Some(TransmissionProfile::pirate_broadcast()),
        metadata: "null".to_string(),
    };
    let req = connect_registration(
        "http://a:1".to_string(),
        Some("  ".to_string()),
        None,
        true,
        "remote".to_string(),
        Some(remote),
    )
    .unwrap();
    assert_eq!(req.id, "remote");
    assert_eq!(req.role, Some(NodeRole::Relay));
    assert_eq!(req.display_name.as_deref(), Some("Remote"));
    assert_eq!(req.transport.as_deref(), Some("local_http"));
    assert_eq!(req.capabilities, vec!["mesh.relay"]);
    assert_eq!(req.metadata, "{\"connectedVia\":\"manual_http\",\"remoteNodeId\":\"remote\"}");

    let bare = connect_registration(
        "http://a:1".to_string(),
        Some(" mine ".to_string()),
        Some("Mine".to_string()),
        true,
        "r\"2".to_string(),
        None,
    )
    .unwrap();
    assert_eq!(bare.id, "mine");
    assert_eq!(bare.role, None);
    assert_eq!(bare.capabilities, vec!["mesh.control", "core.ping"]);
    assert_eq!(bare.metadata, "{\"connectedVia\":\"manual_http\",\"remoteNodeId\":\"r\\\"2\"}");

    assert_eq!(
        connect_registration("u".to_string(), None, None, false, "x".to_string(), None).unwrap_err(),
        "peer_node_not_ok"
    );
}

#[test]
fn error_statuses() {
    assert_eq!(ping_error_status("peer_not_found"), 404);
    assert_eq!(ping_error_status("peer_rate_limited"), 429);
    assert_eq!(ping_error_status("peer_transport_unavailable"), 400);
    assert_eq!(ping_error_status("transport_send_failed"), 502);
    assert_eq!(receive_error_status("peer_rate_limited"), 429);
    assert_eq!(receive_error_status("payload_too_large"), 400);
    assert_eq!(receive_error_status("unsupported_protocol_version"), 400);
    assert_eq!(receive_error_status("ttl_exhausted"), 502);
}

#[test]
fn event_names() {
    assert_eq!(event_name("core.ping.sent").as_deref(), Some("core.ping.sent"));
    assert_eq!(event_name("scene.state.updated").as_deref(), Some("scene.state.updated"));
    assert_eq!(event_name("core.ping"), None);
    assert_eq!(event_name("other"), None);
}

#[test]
fn app_registrations() {
    assert_eq!(app_registration("  ", None).unwrap_err(), "id_required");
    assert_eq!(
        app_registration(" shop ", None).unwrap(),
        ("shop".to_string(), "platform".to_string())
    );
    assert_eq!(
        app_registration("shop", Some(" game ".to_string())).unwrap(),
        ("shop".to_string(), "game".to_string())
    );
}

#[test]
fn node_id_and_port() {
    assert_eq!(node_id_or(Some("node-x".to_string()), 5), "node-x");
    assert_eq!(
        node_id_or(Some("  ".to_string()), 255),
        "node-00000000-0000-0000-0000-0000000000ff"
    );
    assert!(default_node_id(None).starts_with("node-"));
    assert_eq!(default_node_id(None).len(), 41);
    assert_eq!(port_or_default(Some("8080".to_string())), 8080);
    assert_eq!(port_or_default(Some("+81".to_string())), 81);
    assert_eq!(port_or_default(Some("70000".to_string())), DEFAULT_PORT);
    assert_eq!(port_or_default(None), 17321);
}
