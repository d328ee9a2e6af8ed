//! The utterance router: one model call that corrects an utterance and judges its intent.

pub mod calibrator;
pub mod decision;
pub mod prompt;
