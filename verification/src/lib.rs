//! Verified core of the RustShooter game: scoring, session bookkeeping,
//! address and text handling, map-archive extraction and input state.

pub mod scores;
pub mod text;
pub mod pvp;
pub mod protocol;
pub mod address;
pub mod connect;
pub mod random;
pub mod map_loader;
pub mod server;
pub mod settings;
pub mod player;
pub mod weapon;
pub mod server_config;
pub mod fps_controller;
pub mod laws;
pub mod utf8;
