use master_program::mesh::identity::PeerIdentity;
use master_program::mesh::peer_registry::PeerRegistry;

#[test]
fn register_then_get_and_update() {
    let mut reg = PeerRegistry::default();
    let p = PeerIdentity::registered_http("m1".to_string(), "http://a:1".to_string());
    let back = reg.register(p);
    assert_eq!(back.id, "m1");
    assert_eq!(reg.get("m1").unwrap().url.as_deref(), Some("http://a:1"));
    assert!(reg.get("m2").is_none());
    let mut changed = reg.get("m1").unwrap();
    changed.status = "online".to_string();
    reg.update(changed);
    assert_eq!(reg.get("m1").unwrap().status, "online");
    assert_eq!(reg.list().len(), 1);
}

#[test]
fn list_is_sorted_by_id() {
    let mut reg = PeerRegistry::new();
    for id in ["b", "a", "c", "B", "ab"] {
        reg.register(PeerIdentity::registered_stub(id.to_string(), "x".to_string()));
    }
    let ids: Vec<String> = reg.list().into_iter().map(|p| p.id).collect();
    assert_eq!(ids, vec!["B", "a", "ab", "b", "c"]);
}
