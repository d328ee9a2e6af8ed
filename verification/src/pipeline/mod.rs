//! The live pipeline: from gated audio over sentences and paragraphs to finished turns.

pub mod complete;
pub mod consume;
pub mod front;
pub mod loops;
pub mod spec;
pub mod stream;
pub mod tracker;
pub mod turns;
pub mod vad;
