use std::hash::{Hash, Hasher};
use master_program::mesh::envelope::{
    timestamp_or_epoch, timestamp_text, DestinationKind, PayloadType, ProtocolEnvelope, DEFAULT_TTL, MAX_ENVELOPE_BYTES,
    PROTOCOL_VERSION,
};

fn envelope(target: Option<&str>) -> ProtocolEnvelope {
    ProtocolEnvelope::new(
        "node-a".to_string(),
        target.map(|t| t.to_string()),
        "core.ping".to_string(),
        PayloadType::Json,
        "{\"ok\":true}".to_string(),
    )
}

#[test]
fn creates_valid_envelope_with_defaults() {
    let env = envelope(Some("node-b"));
    assert_eq!(env.protocol_version, PROTOCOL_VERSION);
    assert_eq!(env.destination, DestinationKind::Direct);
    assert!(env.checksum.is_some());
    assert!(env.validate().is_ok());
}

#[test]
fn rejects_ttl_exhausted() {
    let mut env = ProtocolEnvelope::new(
        "node-a".to_string(),
        None,
        "mesh.broadcast".to_string(),
        PayloadType::Empty,
        "null".to_string(),
    );
    env.ttl = 1;
    env.hop_count = 2;
    assert_eq!(env.validate().unwrap_err(), "ttl_exhausted");
}

#[test]
fn blank_target_makes_a_broadcast() {
    let env = envelope(Some("   "));
    assert_eq!(env.target_node_id, None);
    assert_eq!(env.destination, DestinationKind::Broadcast);
    assert_eq!(env.ttl, DEFAULT_TTL);
    assert_eq!(env.hop_count, 0);
    assert_eq!(env.metadata, "null");
}

#[test]
fn validation_names_the_first_broken_rule() {
    let mut env = envelope(None);
    env.protocol_version = "mesh.v9".to_string();
    assert_eq!(env.validate().unwrap_err(), "unsupported_protocol_version");
    let mut env = envelope(None);
    env.source_node_id = " ".to_string();
    assert_eq!(env.validate().unwrap_err(), "source_node_id_required");
    let mut env = envelope(None);
    env.message_type = "".to_string();
    assert_eq!(env.validate().unwrap_err(), "message_type_required");
    let mut env = envelope(None);
    env.payload = format!("\"{}\"", "x".repeat(MAX_ENVELOPE_BYTES));
    assert_eq!(env.validate().unwrap_err(), "payload_too_large");
}

#[test]
fn serialized_length_matches_json_text() {
    let env = envelope(Some("node-b"));
    let text = env.json_text();
    assert_eq!(env.serialized_len(), text.len());
    assert!(text.starts_with("{"));
    assert!(text.contains("\"protocolVersion\":\"mesh.v0\""));
    assert!(text.contains("\"sourceNodeId\":\"node-a\""));
    assert!(text.contains("\"payload\":{\"ok\":true}"));
}

#[test]
fn json_text_matches_serde_form() {
    let mut env = envelope(Some("node-b"));
    env.message_id = 0x0123456789abcdef0123456789abcdef;
    env.timestamp = "2026-01-01T00:00:00Z".to_string();
    env.checksum = Some("00000000000000ff".to_string());
    let text = env.json_text();
    let value: serde_json::Value = serde_json::from_str(&text).unwrap();
    assert_eq!(value["messageId"], "01234567-89ab-cdef-0123-456789abcdef");
    assert_eq!(value["targetNodeId"], "node-b");
    assert_eq!(value["destination"], "direct");
    assert_eq!(value["payloadType"], "json");
    assert_eq!(value["ttl"], 8);
    assert_eq!(value["hopCount"], 0);
    assert_eq!(value["checksum"], "00000000000000ff");
}

#[test]
fn forwarding_counts_hops_until_ttl() {
    let mut env = envelope(Some("node-b"));
    env.ttl = 2;
    let once = env.forwarded().unwrap();
    assert_eq!(once.hop_count, 1);
    let twice = once.forwarded().unwrap();
    assert_eq!(twice.hop_count, 2);
    assert_eq!(twice.forwarded().unwrap_err(), "ttl_exhausted");
}

#[test]
fn checksum_is_sixteen_hex_digits_and_stable() {
    let env = envelope(Some("node-b"));
    let a = env.payload_checksum();
    let b = env.payload_checksum();
    assert_eq!(a, b);
    assert_eq!(a.len(), 16);
    assert!(a.chars().all(|c| c.is_ascii_hexdigit()));
    let mut other = env.clone();
    other.payload = "{\"ok\":false}".to_string();
    assert_ne!(other.payload_checksum(), a);
}

#[test]
fn timestamps_are_rfc3339() {
    assert_eq!(timestamp_text(0), "1970-01-01T00:00:00Z");
    assert_eq!(timestamp_text(1_000_000_000), "1970-01-01T00:00:01Z");
}

#[test]
fn unformattable_instant_falls_back_to_epoch() {
    assert_eq!(timestamp_or_epoch(None), "1970-01-01T00:00:00Z");
    assert_eq!(
        timestamp_or_epoch(Some("2026-05-29T10:00:00Z".to_string())),
        "2026-05-29T10:00:00Z"
    );
}

#[test]
fn forwarded_envelope_keeps_its_checksum() {
    let env = envelope(Some("node-b"));
    let next = env.forwarded().unwrap();
    assert_eq!(next.payload_checksum(), env.payload_checksum());
    assert_eq!(env.checksum, Some(env.payload_checksum()));
}

fn hashed_as_fields(env: &ProtocolEnvelope) -> String {
    let mut h = std::collections::hash_map::DefaultHasher::new();
    env.protocol_version.hash(&mut h);
    uuid::Uuid::from_u128(env.message_id).hash(&mut h);
    env.source_node_id.hash(&mut h);
    env.target_node_id.hash(&mut h);
    env.message_type.hash(&mut h);
    let payload: serde_json::Value = serde_json::from_str(&env.payload).unwrap();
    serde_json::to_string(&payload).unwrap().hash(&mut h);
    format!("{:016x}", h.finish())
}

#[test]
fn checksum_hashes_every_covered_field() {
    for target in [Some("node-b"), None] {
        let env = envelope(target);
        assert_eq!(env.payload_checksum(), hashed_as_fields(&env));
        assert_eq!(env.checksum, Some(env.payload_checksum()));
    }
    let env = envelope(Some("node-b"));
    let mut other = env.clone();
    other.source_node_id = "node-z".to_string();
    assert_ne!(other.payload_checksum(), env.payload_checksum());
    assert_eq!(other.payload_checksum(), hashed_as_fields(&other));
}
