use master_program::mesh::envelope::{PayloadType, ProtocolEnvelope};
use master_program::mesh::identity::PeerIdentity;
use master_program::mesh::transports::local_http::{
    http_response_body, joined_path, parse_http_url, post_peer_ping_outcome, prepare_http_request,
    LocalHttpTransport,
};

#[test]
fn parses_http_url_with_default_port() {
    assert_eq!(
        parse_http_url("http://localhost").unwrap(),
        ("localhost".to_string(), 80, "/".to_string())
    );
}

#[test]
fn joins_base_paths() {
    assert_eq!(joined_path("/", "/v1/mesh/node"), "/v1/mesh/node");
    assert_eq!(
        joined_path("/node-a", "/v1/mesh/node"),
        "/node-a/v1/mesh/node"
    );
}

#[test]
fn parses_port_and_path() {
    assert_eq!(
        parse_http_url("http://192.168.100.7:17321/base").unwrap(),
        ("192.168.100.7".to_string(), 17321, "/base".to_string())
    );
    assert!(parse_http_url("https://example.com").is_err());
    assert!(parse_http_url("http://host:99999").is_err());
}

#[test]
fn prepares_get_and_post_requests() {
    let get = prepare_http_request("http://localhost:8080", "GET", "/v1/mesh/node", None).unwrap();
    assert_eq!(get.host, "localhost");
    assert_eq!(get.port, 8080);
    assert_eq!(
        get.request,
        "GET /v1/mesh/node HTTP/1.1\r\nHost: localhost:8080\r\nAccept: application/json\r\nConnection: close\r\n\r\n"
    );
    let post = prepare_http_request("http://localhost", "POST", "/v1/ping", Some("{\"a\":\"é\"}")).unwrap();
    assert!(post.request.starts_with("POST /v1/ping HTTP/1.1\r\nHost: localhost:80\r\n"));
    assert!(post.request.contains("Content-Length: 10\r\n"));
    assert!(post.request.ends_with("\r\n\r\n{\"a\":\"é\"}"));
}

#[test]
fn reads_response_bodies() {
    assert_eq!(
        http_response_body("HTTP/1.1 200 OK\r\nX: y\r\n\r\n{\"ok\":true}").unwrap(),
        "{\"ok\":true}"
    );
    assert_eq!(
        http_response_body("HTTP/1.1 404 Not Found\r\n\r\n").unwrap_err(),
        "peer_http_error: HTTP/1.1 404 Not Found"
    );
    assert_eq!(http_response_body("").unwrap_err(), "peer_http_error: empty_response");
    assert_eq!(
        post_peer_ping_outcome(Ok("HTTP/1.1 200 OK\r\n\r\n".to_string())).unwrap_err(),
        "empty_response"
    );
    assert!(post_peer_ping_outcome(Ok("HTTP/1.0 204 OK\r\n\r\n{}".to_string())).is_ok());
    assert_eq!(post_peer_ping_outcome(Err("refused".to_string())).unwrap_err(), "refused");
}

#[test]
fn ping_request_for_http_peer() {
    let transport = LocalHttpTransport;
    let peer = PeerIdentity::registered_http("m1".to_string(), "http://10.0.0.2:17321".to_string());
    let mut env = ProtocolEnvelope::new(
        "node-a".to_string(),
        Some("m1".to_string()),
        "core.ping".to_string(),
        PayloadType::Json,
        "{\"message\":\"mesh ping from node-a\"}".to_string(),
    );
    env.message_id = 1;
    let exchange = transport.ping_request(&env, &peer).unwrap();
    assert_eq!(exchange.host, "10.0.0.2");
    assert_eq!(exchange.port, 17321);
    let body = exchange.request.split("\r\n\r\n").nth(1).unwrap();
    assert_eq!(
        body,
        "{\"message\":\"mesh ping from node-a\",\"messageId\":\"00000000-0000-0000-0000-000000000001\",\"source\":\"node-a\"}"
    );
    let stub = PeerIdentity::registered_stub("s".to_string(), "serial".to_string());
    assert_eq!(transport.ping_request(&env, &stub).unwrap_err().code, "peer_transport_unavailable");
    let receipt = transport
        .ping_result(Ok("HTTP/1.1 200 OK\r\n\r\n{\"ok\":true}".to_string()))
        .unwrap();
    assert_eq!(receipt.transport, "local_http");
    assert_eq!(
        transport.ping_result(Err("connect refused".to_string())).unwrap_err().code,
        "transport_send_failed"
    );
}

#[test]
fn local_http_reports_itself() {
    let t = LocalHttpTransport;
    assert_eq!(t.kind(), "local_http");
    assert_eq!(t.status().kind, "local_http");
    assert_eq!(t.capacity().max_message_bytes, 65536);
    assert!(t.start().is_ok());
}

#[test]
fn ping_request_with_given_message() {
    let transport = LocalHttpTransport;
    let peer = PeerIdentity::registered_http("m1".to_string(), "http://h:9/base/".to_string());
    let mut env = ProtocolEnvelope::new(
        "src\"x".to_string(),
        None,
        "core.ping".to_string(),
        PayloadType::Empty,
        "null".to_string(),
    );
    env.message_id = 0xff;
    let exchange = transport.ping_request_with("hello", &env, &peer).unwrap();
    assert!(exchange.request.starts_with("POST /base/v1/ping HTTP/1.1\r\nHost: h:9\r\n"));
    assert!(exchange.request.ends_with(
        "{\"message\":\"hello\",\"messageId\":\"00000000-0000-0000-0000-0000000000ff\",\"source\":\"src\\\"x\"}"
    ));
    // A payload that is not a JSON object with a message pings with `ping`.
    let exchange = transport.ping_request(&env, &peer).unwrap();
    assert!(exchange.request.contains("{\"message\":\"ping\","));
    let bad = PeerIdentity::registered_http("m2".to_string(), "https://h".to_string());
    let err = transport.ping_request_with("x", &env, &bad).unwrap_err();
    assert_eq!(err.code, "transport_send_failed");
    assert_eq!(err.message, "only_http_supported_in_mesh_v0");
}

#[test]
fn built_url_parses_back() {
    for (host, port, path) in [
        ("localhost", 8080u16, "/"),
        ("192.168.100.7", 17321, "/base/v1"),
        ("node-a.local", 0, "/x"),
        ("h", 65535, "/deep/er/path"),
    ] {
        let url = format!("http://{}:{}{}", host, port, path);
        assert_eq!(
            parse_http_url(&url).unwrap(),
            (host.to_string(), port, path.to_string())
        );
    }
}
