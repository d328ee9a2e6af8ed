//! Model providers: speech recognition, language and vision models behind one set of traits,
//! whether they run in the process or behind an HTTP endpoint.

pub mod config;
pub mod http;

use vstd::prelude::*;

verus! {

/// Which edge of speech a detector reports.
#[derive(Clone, Copy, Debug, PartialEq, Eq, Structural)]
pub enum VadEventKind {
    StartOfSpeech,
    EndOfSpeech,
}

/// An edge of speech; the end carries the audio of the utterance, the start carries none.
#[derive(Clone, Debug)]
pub struct VadEvent {
    pub kind: VadEventKind,
    pub pcm: Vec<i16>,
}

/// Why a provider gave no answer.
#[derive(Clone, Debug)]
pub struct ProviderError {
    pub message: String,
}

/// Every provider says which family it is of.
pub trait ModelProvider {
    /// The family, such as `local-onnx` or `remote-http`.
    fn kind(&self) -> &'static str;
}

/// Speech to text.
pub trait AsrProvider {
    fn recognize(&self, pcm: &[i16], sample_rate: u32) -> Result<String, ProviderError>;
}

/// Text to text.
pub trait LlmProvider {
    fn complete(&self, system: &str, user: &str) -> Result<String, ProviderError>;
}

/// Text and image to text.
pub trait VlmProvider {
    fn complete(&self, system: &str, user: &str, image_png: &[u8]) -> Result<String, ProviderError>;
}

/// A recogniser, remote or in the process; which one is fixed when it is built.
#[derive(Clone)]
pub enum AsyncAsr<H: AsrProvider, B: AsrProvider> {
    Http(H),
    Blocking(B),
}

impl<H: AsrProvider, B: AsrProvider> AsyncAsr<H, B> {
    /// Asks the provider that was chosen, with the arguments as they are.
    pub fn recognize_sync(&self, pcm: &[i16], sample_rate: u32) -> (r: Result<String, ProviderError>)
        ensures
            match *self {
                AsyncAsr::Http(h) => call_ensures(H::recognize, (&h, pcm, sample_rate), r),
                AsyncAsr::Blocking(p) => call_ensures(B::recognize, (&p, pcm, sample_rate), r),
            },
    {
        match self {
            AsyncAsr::Http(h) => h.recognize(pcm, sample_rate),
            AsyncAsr::Blocking(p) => p.recognize(pcm, sample_rate),
        }
    }
}

/// A language model, remote or in the process; which one is fixed when it is built.
#[derive(Clone)]
pub enum AsyncLlm<H: LlmProvider, B: LlmProvider> {
    Http(H),
    Blocking(B),
}

impl<H: LlmProvider, B: LlmProvider> AsyncLlm<H, B> {
    /// Asks the provider that was chosen, with the arguments as they are.
    pub fn complete_sync(&self, system: &str, user: &str) -> (r: Result<String, ProviderError>)
        ensures
            match *self {
                AsyncLlm::Http(h) => call_ensures(H::complete, (&h, system, user), r),
                AsyncLlm::Blocking(p) => call_ensures(B::complete, (&p, system, user), r),
            },
    {
        match self {
            AsyncLlm::Http(h) => h.complete(system, user),
            AsyncLlm::Blocking(p) => p.complete(system, user),
        }
    }
}

/// Law: whoever is chosen is asked, about all of the audio or both texts, and their answer is the
/// answer.
pub proof fn law_the_chosen_one_is_asked<H: AsrProvider, B: AsrProvider, L: LlmProvider, M: LlmProvider>(
    asr: AsyncAsr<H, B>,
    pcm: &[i16],
    sample_rate: u32,
    heard: Result<String, ProviderError>,
    llm: AsyncLlm<L, M>,
    system: &str,
    user: &str,
    said: Result<String, ProviderError>,
)
    requires
        call_ensures(AsyncAsr::<H, B>::recognize_sync, (&asr, pcm, sample_rate), heard),
        call_ensures(AsyncLlm::<L, M>::complete_sync, (&llm, system, user), said),
    ensures
        asr matches AsyncAsr::Http(h) ==> call_ensures(H::recognize, (&h, pcm, sample_rate), heard),
        asr matches AsyncAsr::Blocking(b) ==> call_ensures(
            B::recognize,
            (&b, pcm, sample_rate),
            heard,
        ),
        llm matches AsyncLlm::Http(h) ==> call_ensures(L::complete, (&h, system, user), said),
        llm matches AsyncLlm::Blocking(b) ==> call_ensures(M::complete, (&b, system, user), said),
{
}

} // verus!
