//! audio_aura: the verified core of a voice secretary. Speech comes in as PCM, is cut into
//! sentences and paragraphs, recognised, calibrated by a language model and archived; every
//! rule on that way is stated as a contract and proved here, while sockets, files, clocks and
//! models stay with the program around it.

pub mod archive;
pub mod audio_store;
pub mod calibrator;
pub mod clock;
pub mod codec;
pub mod composer;
pub mod context;
pub mod daemon;
pub mod decision;
pub mod familiar;
pub mod hub;
pub mod ingest;
pub mod json;
pub mod models;
pub mod pipeline;
pub mod prompt;
pub mod recognizer;
pub mod report;
pub mod router;
pub mod store;
pub mod text;
pub mod tts;
pub mod types;
pub mod vad;
pub mod wav;
