//! A terminal-snake game model: a fixed-size grid of tiles on which a snake
//! moves under directional input, eats food to grow, and dies on wall or
//! self collision. The per-tick update, food placement, direction rules and
//! ASCII rendering are verified; terminal handling lives outside the library.

pub mod direction;
pub mod tile;
pub mod game;
pub mod render;
