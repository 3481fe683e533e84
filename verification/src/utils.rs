//! Text utilities shared by the store and its request layer.

pub mod clock;
pub mod regex;
pub mod text;
pub mod url;
