//! Bingo cards: a pool of phrases, a bonus phrase for the centre cell, and the
//! layout of a square grid of cells onto a square canvas.

pub mod bingo;
pub mod logger;
pub mod samples;
