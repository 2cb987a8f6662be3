//! The rules of a grid-based snake game: playfield geometry, the snake's
//! movement and growth, and the tick-driven state machine that ends the game
//! on a self-collision or on leaving the playfield.

pub mod board;
pub mod snake;
pub mod engine;
