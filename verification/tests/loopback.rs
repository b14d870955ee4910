use master_program::mesh::envelope::{PayloadType, ProtocolEnvelope};
use master_program::mesh::identity::PeerIdentity;
use master_program::mesh::transport::MeshTransport;
use master_program::mesh::transports::loopback::LoopbackTransport;
use master_program::mesh::transports::stubs::StubTransport;

#[test]
fn stores_loopback_message() {
    let mut transport = LoopbackTransport::default();
    let peer = PeerIdentity::registered_stub("self".to_string(), "loopback".to_string());
    let env = ProtocolEnvelope::new(
        "self".to_string(),
        Some("self".to_string()),
        "test".to_string(),
        PayloadType::Text,
        "\"hi\"".to_string(),
    );
    transport.send(&env, &peer).unwrap();
    assert_eq!(transport.drain().len(), 1);
}

#[test]
fn loopback_broadcast_and_drain_empties() {
    let mut transport = LoopbackTransport::default();
    let env = ProtocolEnvelope::new(
        "self".to_string(),
        None,
        "test".to_string(),
        PayloadType::Empty,
        "null".to_string(),
    );
    let receipts = transport.broadcast(&env).unwrap();
    assert_eq!(receipts.len(), 1);
    assert_eq!(receipts[0].transport, "loopback");
    let held = transport.drain();
    assert_eq!(held.len(), 1);
    assert_eq!(held[0].message_id, env.message_id);
    assert_eq!(transport.drain().len(), 0);
    assert_eq!(transport.kind(), "loopback");
    assert_eq!(transport.capabilities(), vec!["mesh.test", "mesh.control"]);
}

#[test]
fn stubs_refuse_everything() {
    let mut stub = StubTransport::serial();
    assert_eq!(stub.kind(), "serial");
    let err = stub.start().unwrap_err();
    assert_eq!(err.code, "transport_unavailable");
    assert_eq!(err.message, "serial transport is not implemented in v0");
    let env = ProtocolEnvelope::new(
        "self".to_string(),
        None,
        "test".to_string(),
        PayloadType::Empty,
        "null".to_string(),
    );
    let peer = PeerIdentity::registered_stub("p".to_string(), "serial".to_string());
    assert_eq!(stub.send(&env, &peer).unwrap_err().code, "transport_unavailable");
    assert_eq!(stub.broadcast(&env).unwrap_err().code, "broadcast_unavailable");
    assert_eq!(stub.status().status, "unavailable");
    assert_eq!(stub.capacity().max_message_bytes, 0);
    assert_eq!(StubTransport::web_rtc().kind(), "webrtc");
    assert_eq!(StubTransport::bluetooth().kind(), "bluetooth");
    assert_eq!(StubTransport::store_forward().kind(), "store_forward");
}
