//! A grid snake game: the snake and its movement rules, the game's state
//! machine, and the snapshots it hands to spectators.

pub mod draw;
pub mod game;
pub mod snake;
pub mod spectator;
