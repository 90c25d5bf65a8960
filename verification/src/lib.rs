//! Falling-block puzzle core: the playing field, the active piece, collision
//! detection, gravity, line clearing and the spawn cycle.

pub mod board;
pub mod game;
pub mod laws;
pub mod tetromino;
