//! Verified core of a small voxel game: chunked terrain generation, the
//! client/server message model, the server's player registry, the client's
//! view of the world and the map editor's data model.

pub mod client;
pub mod config;
pub mod keyed;
pub mod laws;
pub mod mapeditor;
pub mod messages;
pub mod roster;
pub mod server;
pub mod world;
