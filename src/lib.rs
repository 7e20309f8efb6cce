//! Turn-based dungeon simulation: map generation, visibility bookkeeping,
//! monster decisions, combat resolution, inventories and the turn cycle.

pub mod map;
pub mod rng;
pub mod dungeon;
pub mod combat;
pub mod visibility;
pub mod backpack;
pub mod items;
pub mod enemy;
pub mod player;
pub mod state;
pub mod spawner;
pub mod world;
