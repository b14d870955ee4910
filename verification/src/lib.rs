//! A local-first mesh node: protocol envelopes, peer identity and registry,
//! rate limiting, text streams, scene layers and the mesh engine that ties
//! them together, with the decisions of the node's HTTP API.
pub mod api;
pub mod mesh;
pub mod platform;
pub mod text;
