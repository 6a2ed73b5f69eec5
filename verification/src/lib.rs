//! A persistent multi-user world: an object graph driven by scripts, with a
//! serialized dispatcher, timers and a game clock.

pub mod actor;
pub mod api;
pub mod chat;
pub mod dict;
pub mod host;
pub mod laws;
pub mod package;
pub mod state;
pub mod text;
pub mod types;
pub mod value;
pub mod world;
