//! Rendering and data-shaping logic of a `neofetch`-style system report.

pub mod ascii;
pub mod text;
pub mod terminal;
pub mod render;
pub mod collector;
