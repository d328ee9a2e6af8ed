//! The desktop pet: what it is painted on, and how it answers the pointer.

pub mod behavior;
pub mod canvas;
pub mod color;
pub mod config;
