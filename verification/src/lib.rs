//! Rules, map and level generation of a five-floor dungeon crawler.

pub mod map;
pub mod rng;
pub mod level_gen;
pub mod fog;
pub mod stats;
pub mod items;
pub mod combat;
pub mod state;
pub mod render;
pub mod connect;
