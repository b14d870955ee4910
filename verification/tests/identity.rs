use master_program::mesh::identity::{
    ConnectivityPolicy, MeshPeer, NodeRole, PeerIdentity, PeerTelemetry, TransmissionProfile,
    TransportEndpoint,
};

#[test]
fn roles_from_configuration() {
    assert_eq!(NodeRole::from_env_value(Some(" Central ".to_string())), NodeRole::Coordinator);
    assert_eq!(NodeRole::from_env_value(Some("PHONE".to_string())), NodeRole::Mobile);
    assert_eq!(NodeRole::from_env_value(Some("catalog".to_string())), NodeRole::Catalog);
    assert_eq!(NodeRole::from_env_value(Some("x".to_string())), NodeRole::Peer);
    assert_eq!(NodeRole::from_env_value(None), NodeRole::Peer);
    assert_eq!(NodeRole::Coordinator.capability(), "scene.coordinator");
    assert_eq!(NodeRole::Catalog.capability(), "catalog.publisher");
}

#[test]
fn peers_and_endpoints() {
    let http = TransportEndpoint::http("http://a:1".to_string());
    assert_eq!(http.kind, "local_http");
    assert_eq!(http.url.as_deref(), Some("http://a:1"));
    let stub = TransportEndpoint::unavailable("serial".to_string());
    assert_eq!(stub.status, "unavailable");
    let peer = PeerIdentity::registered_http("m1".to_string(), "http://a:1".to_string());
    assert_eq!(peer.status, "registered");
    assert_eq!(peer.telemetry, PeerTelemetry::default());
    let listed = MeshPeer::from(peer);
    assert_eq!(listed.id, "m1");
    let _ = ConnectivityPolicy::desktop_default();
    let _ = TransmissionProfile::clean_arcade();
}

#[test]
fn every_role_name_reads_back_in_any_case() {
    let names = [
        ("bootstrap", NodeRole::Bootstrap),
        ("relay", NodeRole::Relay),
        ("coordinator", NodeRole::Coordinator),
        ("central", NodeRole::Coordinator),
        ("catalog", NodeRole::Catalog),
        ("mobile", NodeRole::Mobile),
        ("cell", NodeRole::Mobile),
        ("phone", NodeRole::Mobile),
    ];
    for (name, role) in names {
        assert_eq!(NodeRole::from_env_value(Some(name.to_string())), role);
        assert_eq!(NodeRole::from_env_value(Some(name.to_uppercase())), role);
        assert_eq!(NodeRole::from_env_value(Some(format!(" \t{}\n", name))), role);
    }
    assert_eq!(NodeRole::from_env_value(Some(" PEER ".to_string())), NodeRole::Peer);
    assert_eq!(NodeRole::from_env_value(Some("re lay".to_string())), NodeRole::Peer);
}
