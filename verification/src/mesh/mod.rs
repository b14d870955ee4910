pub mod envelope;
pub mod identity;
pub mod scene_layers;
pub mod transport;
pub mod transports;
pub mod rate_limit;
pub mod stream;
pub mod peer_registry;
pub mod engine;

pub use engine::MeshEngine;
pub use identity::{MeshPeer, RegisterPeerRequest};
pub use scene_layers::{SceneLayer, SceneLayerPatch};
