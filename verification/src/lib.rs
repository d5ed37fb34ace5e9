//! Core bookkeeping of a small real-time 3D scene: instanced mesh storage with
//! a growable GPU-side buffer, a registry of meshes keyed by hashed name, a
//! bridge keeping render instance slots and physics bodies in a consistent
//! bijection, and the classification pass that turns scene nodes into meshes,
//! instances and colliders.

pub mod cull;
pub mod extcol;
pub mod gpumock;
pub mod ibuf;
pub mod ids;
pub mod ingest;
pub mod instance;
pub mod mathops;
pub mod normals;
pub mod physics;
pub mod registry;
pub mod scene;

pub use ids::hash_string_to_u64;
