pub mod game;
pub mod html;
pub mod laws;
pub mod protocol;
mod random;
pub mod room;
pub mod roster;
pub mod rules;
