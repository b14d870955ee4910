pub mod loopback;
pub mod stubs;
pub mod local_http;
