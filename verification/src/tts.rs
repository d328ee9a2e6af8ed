//! Speech output: one interface for every synthesiser, and one that stays silent.

use vstd::prelude::*;
use vstd::string::*;

use crate::models::ProviderError;

verus! {

/// Text to speech.
pub trait Tts {
    /// The samples of the spoken text, one channel; none where nothing is to be heard.
    fn synthesize(&self, text: &str) -> Result<Vec<i16>, ProviderError>;

    /// Samples per second.
    fn sample_rate(&self) -> (r: u32)
        default_ensures
            r == 16_000,
    {
        16_000
    }

    /// Is there anything to be heard at all?
    fn is_available(&self) -> (r: bool)
        default_ensures
            r,
    {
        true
    }
}

/// Says nothing.
pub struct NoopTts;

impl Default for NoopTts {
    fn default() -> (r: Self) {
        NoopTts
    }
}

impl Tts for NoopTts {
    fn synthesize(&self, _text: &str) -> (r: Result<Vec<i16>, ProviderError>)
        ensures
            r matches Ok(v) && v@.len() == 0,
    {
        Ok(Vec::new())
    }

    fn is_available(&self) -> (r: bool)
        ensures
            !r,
    {
        false
    }
}

} // verus!
