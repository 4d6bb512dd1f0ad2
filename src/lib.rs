//! A turn-based battle between heroes and enemies on a hexagonal grid.

pub mod ai;
pub mod battlefield;
pub mod battlemap;
pub mod battlestate;
pub mod character;
pub mod combat;
pub mod commands;
pub mod crafting;
pub mod effect;
pub mod gamestate;
pub mod hexgrid;
pub mod inventory;
pub mod item;
pub mod pathfinding;
pub mod turns;
