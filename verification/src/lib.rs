//! Verified core of an alchemical factory game: chunked world data,
//! containers and inventories, deterministic terrain generation, and the
//! binary formats used to persist chunks and player state.

pub mod world;
pub mod inventory;
pub mod containers;
pub mod generation;
pub mod gameplay;
pub mod text;
pub mod errors;
pub mod types;
pub mod wire;
pub mod codec;
pub mod player_state;
pub mod map_view;
pub mod rules;
pub mod controls;
pub mod transfer;
pub mod icons;
pub mod ore_nodes;
pub mod hud;
pub mod eviction;
pub mod moves;
pub mod save_queue;
pub mod load_queue;
