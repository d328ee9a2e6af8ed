//! What a pipeline is made of: plain, fully resolved choices, and how they become the
//! configuration of the recognition and of the calibration.

use vstd::prelude::*;
use vstd::string::*;

use crate::calibrator::{
    calibrated, CalibratorView, LlmInput, PassThroughCalibrator, Stage2Calibrator,
    Stage2CalibratorImpl,
};
use crate::models::config::ProviderKind;
use crate::models::http::{HttpAsr, HttpLlm, ASR_TIMEOUT, LLM_TIMEOUT};
use crate::models::{AsrProvider, LlmProvider, ProviderError};
use crate::pipeline::turns::{debug_quoted, debug_text};
use crate::prompt::{clone_words, pair_views};
use crate::text::{has_prefix, same, strip_prefix, views};
use crate::types::{best_texts, ParagraphId, VadParagraph, VadSentence};

verus! {

/// How speech is cut into sentences and paragraphs. Durations are in microseconds.
#[derive(Clone, Copy, Debug, PartialEq, Eq, Structural)]
pub struct VadSpec {
    /// The probability of speech, in thousandths, from which on a frame counts as voiced.
    pub threshold_milli: u32,
    /// A pause this long ends a sentence.
    pub min_silence_us: i64,
    /// A sentence shorter than this is dropped.
    pub min_speech_us: i64,
    /// A sentence longer than this is cut.
    pub max_speech_us: i64,
    /// A pause this long ends a paragraph; 0 makes each sentence a paragraph.
    pub merge_gap_us: i64,
    /// A sentence is widened by this much on both sides.
    pub edge_margin_us: i64,
}

/// How speech is cut where nothing else is asked for.
pub open spec fn default_cut() -> VadSpec {
    VadSpec {
        threshold_milli: 500,
        min_silence_us: 1_000_000,
        min_speech_us: 300_000,
        max_speech_us: 28_000_000,
        merge_gap_us: 5_000_000,
        edge_margin_us: 300_000,
    }
}

impl Default for VadSpec {
    fn default() -> (r: Self)
        ensures
            r == default_cut(),
    {
        VadSpec {
            threshold_milli: 500,
            min_silence_us: 1_000_000,
            min_speech_us: 300_000,
            max_speech_us: 28_000_000,
            merge_gap_us: 5_000_000,
            edge_margin_us: 300_000,
        }
    }
}

/// The streaming recogniser, which always runs in the process.
#[derive(Clone, Debug)]
pub struct StreamSpec {
    /// "zipformer" or "x-asr".
    pub model: String,
}

/// The batch recogniser.
#[derive(Clone, Debug)]
pub enum AsrSpec {
    /// In the process. `model_dir` is where all models are looked for instead of the shared
    /// place.
    Local {
        backend: String,
        language: String,
        hardware: String,
        threads: i32,
        model_dir: Option<String>,
    },
    /// Behind an endpoint.
    Remote { endpoint: String, model: String },
    /// None: the streaming text stands.
    Disabled,
}

impl AsrSpec {
    /// The choice in a word.
    pub fn kind(&self) -> (r: &'static str)
        ensures
            r@ == match *self {
                AsrSpec::Local { .. } => "local"@,
                AsrSpec::Remote { .. } => "remote"@,
                AsrSpec::Disabled => "disabled"@,
            },
    {
        match self {
            AsrSpec::Local { .. } => "local",
            AsrSpec::Remote { .. } => "remote",
            AsrSpec::Disabled => "disabled",
        }
    }
}

/// The language model that calibrates.
#[derive(Clone, Debug)]
pub enum LlmSpec {
    /// Behind an endpoint.
    Remote { endpoint: String, model: String },
    /// None: the recognised text stands.
    Disabled,
}

impl LlmSpec {
    /// The choice in a word.
    pub fn kind(&self) -> (r: &'static str)
        ensures
            r@ == match *self {
                LlmSpec::Remote { .. } => "remote"@,
                LlmSpec::Disabled => "disabled"@,
            },
    {
        match self {
            LlmSpec::Remote { .. } => "remote",
            LlmSpec::Disabled => "disabled",
        }
    }
}

/// All choices of a pipeline.
#[derive(Clone, Debug)]
pub struct PipelineSpec {
    /// Where the audio comes from.
    pub scout_addr: String,
    /// How many milliseconds of audio the source is asked to send at a time.
    pub scout_chunk_ms: Option<u64>,
    /// Words to listen for.
    pub hotwords: Vec<String>,
    pub vad: VadSpec,
    pub stream: StreamSpec,
    pub asr: AsrSpec,
    pub llm: LlmSpec,
    /// Which transcript the language model sees.
    pub llm_input: LlmInput,
}

/// Where a model file is.
#[derive(Debug)]
pub enum ModelPath {
    /// Below a directory that was chosen.
    File(String),
    /// An entry of the shared place, which is looked up when the model is loaded.
    Shared(String),
}

/// A model's place as a value.
pub enum ModelPathView {
    File(Seq<char>),
    Shared(Seq<char>),
}

impl View for ModelPath {
    type V = ModelPathView;

    open spec fn view(&self) -> ModelPathView {
        match self {
            ModelPath::File(s) => ModelPathView::File(s@),
            ModelPath::Shared(s) => ModelPathView::Shared(s@),
        }
    }
}

impl ModelPath {
    /// The path, or the entry that is looked up.
    pub fn as_str(&self) -> (r: &str)
        ensures
            self@ == ModelPathView::File(r@) || self@ == ModelPathView::Shared(r@),
            self is File == (self@ == ModelPathView::File(r@)),
    {
        match self {
            ModelPath::File(s) => s.as_str(),
            ModelPath::Shared(s) => s.as_str(),
        }
    }
}

/// The name of an entry without the shared place's prefix.
pub open spec fn bare_name(rel: Seq<char>) -> Seq<char> {
    if has_prefix(rel, "MODELS::"@) {
        rel.skip("MODELS::"@.len() as int)
    } else {
        rel
    }
}

/// Where an entry is: below the chosen directory, or in the shared place.
pub open spec fn model_at(dir: Option<Seq<char>>, rel: Seq<char>) -> ModelPathView {
    match dir {
        Some(d) => ModelPathView::File(d + "/"@ + bare_name(rel)),
        None => ModelPathView::Shared(rel),
    }
}

/// An optional directory as a value.
pub open spec fn dir_view(dir: Option<String>) -> Option<Seq<char>> {
    match dir {
        Some(d) => Some(d@),
        None => None,
    }
}

/// Where an entry is.
pub fn resolve_model(models_dir: &Option<String>, rel: &str) -> (r: ModelPath)
    ensures
        r@ == model_at(dir_view(*models_dir), rel@),
{
    match models_dir {
        Some(d) => {
            let sub = match strip_prefix(rel, "MODELS::") {
                Some(t) => t,
                None => rel,
            };
            let mut s = d.as_str().to_owned();
            s.append("/");
            s.append(sub);
            ModelPath::File(s)
        },
        None => ModelPath::Shared(rel.to_owned()),
    }
}

/// The detector.
pub struct VadModel {
    pub model: ModelPath,
    pub threshold_milli: u32,
    pub min_silence_us: i64,
    pub min_speech_us: i64,
    pub max_speech_us: i64,
    pub edge_margin_us: i64,
}

/// The batch recogniser in the process. What is `None` is left to the runtime.
pub struct AsrModel {
    pub model: ModelPath,
    pub language: String,
    pub tokens: ModelPath,
    pub provider: Option<String>,
    pub num_threads: Option<i32>,
}

/// The streaming recogniser.
pub struct StreamModel {
    pub encoder: ModelPath,
    pub decoder: ModelPath,
    pub joiner: ModelPath,
    pub tokens: ModelPath,
    pub bpe_vocab: ModelPath,
    pub hotwords: Vec<String>,
}

/// The configuration of the recognition.
pub struct Stage1Config {
    pub scout_addr: String,
    pub models_dir: Option<String>,
    pub vad: VadModel,
    pub asr: AsrModel,
    pub streaming: StreamModel,
    pub scout_chunk_ms: Option<u64>,
    /// Where the batch recogniser runs.
    pub asr_kind: ProviderKind,
    /// Its name at the endpoint, where it runs behind one.
    pub asr_model: String,
    pub merge_gap_us: i64,
    /// Are batch passes made at all?
    pub batch_enabled: bool,
    /// Does the loop itself hand out batch passes?
    pub batch_jobs: bool,
    /// Is audio taken in?
    pub active: bool,
    /// Does the loop run?
    pub running: bool,
    /// Is the open paragraph to be closed?
    pub flush_paragraph: bool,
}

/// Why a choice cannot be had.
#[derive(Clone, Debug)]
pub struct ConfigError {
    pub message: String,
}

/// The five files of a streaming engine.
pub open spec fn is_engine(
    m: StreamModel,
    dir: Option<Seq<char>>,
    encoder: Seq<char>,
    decoder: Seq<char>,
    joiner: Seq<char>,
    tokens: Seq<char>,
    bpe_vocab: Seq<char>,
) -> bool {
    &&& m.encoder@ == model_at(dir, encoder)
    &&& m.decoder@ == model_at(dir, decoder)
    &&& m.joiner@ == model_at(dir, joiner)
    &&& m.tokens@ == model_at(dir, tokens)
    &&& m.bpe_vocab@ == model_at(dir, bpe_vocab)
}

/// The files of the engine that is used where nothing else is chosen.
pub open spec fn is_zipformer(m: StreamModel, dir: Option<Seq<char>>) -> bool {
    is_engine(
        m,
        dir,
        "MODELS::zipformer-streaming-zh-en/encoder-epoch-99-avg-1.onnx"@,
        "MODELS::zipformer-streaming-zh-en/decoder-epoch-99-avg-1.onnx"@,
        "MODELS::zipformer-streaming-zh-en/joiner-epoch-99-avg-1.onnx"@,
        "MODELS::zipformer-streaming-zh-en/tokens.txt"@,
        "MODELS::zipformer-streaming-zh-en/bpe.vocab"@,
    )
}

/// The files of the larger engine.
pub open spec fn is_x_asr(m: StreamModel, dir: Option<Seq<char>>) -> bool {
    is_engine(
        m,
        dir,
        "MODELS::x-asr/encoder-480ms.onnx"@,
        "MODELS::x-asr/decoder-480ms.onnx"@,
        "MODELS::x-asr/joiner-480ms.onnx"@,
        "MODELS::x-asr/tokens.txt"@,
        "MODELS::x-asr/bpe.vocab"@,
    )
}

/// The detector and the batch recogniser are where they are by default.
pub open spec fn default_models(c: Stage1Config, dir: Option<Seq<char>>) -> bool {
    &&& c.vad.model@ == model_at(dir, "MODELS::silero-vad/silero_vad.onnx"@)
    &&& c.asr.model@ == model_at(dir, "MODELS::sensevoice/model.int8.onnx"@)
    &&& c.asr.tokens@ == model_at(dir, "MODELS::sensevoice/tokens.txt"@)
    &&& c.asr.language@ == "auto"@
}

/// The detector and the merge gap go by `v`.
pub open spec fn cut_by(c: Stage1Config, v: VadSpec) -> bool {
    &&& c.vad.threshold_milli == v.threshold_milli
    &&& c.vad.min_silence_us == v.min_silence_us
    &&& c.vad.min_speech_us == v.min_speech_us
    &&& c.vad.max_speech_us == v.max_speech_us
    &&& c.vad.edge_margin_us == v.edge_margin_us
    &&& c.merge_gap_us == v.merge_gap_us
}

/// What is said of a streaming engine that is not known, its name being `quoted`.
pub open spec fn unsupported_engine(quoted: Seq<char>) -> Seq<char> {
    "unsupported streaming engine "@ + quoted + " (supported: \"zipformer\" | \"x-asr\")"@
}

/// The error for a streaming engine that is not known, its name being `quoted` already.
pub fn engine_error(quoted: &str) -> (r: ConfigError)
    ensures
        r.message@ == unsupported_engine(quoted@),
{
    let mut message = "unsupported streaming engine ".to_owned();
    message.append(quoted);
    message.append(" (supported: \"zipformer\" | \"x-asr\")");
    ConfigError { message }
}

impl Stage1Config {
    /// The defaults, with the models in the shared place.
    pub fn new(scout_addr: &str) -> (r: Self)
        ensures
            r.is_default(scout_addr@, None),
    {
        Self::with_models_dir(scout_addr, None)
    }

    /// All fields have their defaults, with the models below `dir` where it is given.
    pub open spec fn is_default(self, scout_addr: Seq<char>, dir: Option<Seq<char>>) -> bool {
        &&& self.scout_addr@ == scout_addr
        &&& dir_view(self.models_dir) == dir
        &&& default_models(self, dir)
        &&& is_zipformer(self.streaming, dir)
        &&& self.streaming.hotwords@.len() == 0
        &&& self.asr.provider is None
        &&& self.asr.num_threads is None
        &&& self.scout_chunk_ms is None
        &&& self.asr_kind is Local
        &&& self.asr_model@.len() == 0
        &&& cut_by(self, default_cut())
        &&& self.batch_enabled
        &&& self.batch_jobs
        &&& self.active
        &&& self.running
        &&& !self.flush_paragraph
    }

    /// The defaults, with all models below a directory of one's own.
    pub fn with_models_dir(scout_addr: &str, models_dir: Option<String>) -> (r: Self)
        ensures
            r.is_default(scout_addr@, dir_view(models_dir)),
    {
        let v = VadSpec::default();
        let d = &models_dir;
        let vad = VadModel {
            model: resolve_model(d, "MODELS::silero-vad/silero_vad.onnx"),
            threshold_milli: v.threshold_milli,
            min_silence_us: v.min_silence_us,
            min_speech_us: v.min_speech_us,
            max_speech_us: v.max_speech_us,
            edge_margin_us: v.edge_margin_us,
        };
        let asr = AsrModel {
            model: resolve_model(d, "MODELS::sensevoice/model.int8.onnx"),
            language: "auto".to_owned(),
            tokens: resolve_model(d, "MODELS::sensevoice/tokens.txt"),
            provider: None,
            num_threads: None,
        };
        let streaming = StreamModel {
            encoder: resolve_model(d, "MODELS::zipformer-streaming-zh-en/encoder-epoch-99-avg-1.onnx"),
            decoder: resolve_model(d, "MODELS::zipformer-streaming-zh-en/decoder-epoch-99-avg-1.onnx"),
            joiner: resolve_model(d, "MODELS::zipformer-streaming-zh-en/joiner-epoch-99-avg-1.onnx"),
            tokens: resolve_model(d, "MODELS::zipformer-streaming-zh-en/tokens.txt"),
            bpe_vocab: resolve_model(d, "MODELS::zipformer-streaming-zh-en/bpe.vocab"),
            hotwords: Vec::new(),
        };
        Stage1Config {
            scout_addr: scout_addr.to_owned(),
            models_dir,
            vad,
            asr,
            streaming,
            scout_chunk_ms: None,
            asr_kind: ProviderKind::Local,
            asr_model: String::new(),
            merge_gap_us: v.merge_gap_us,
            batch_enabled: true,
            batch_jobs: true,
            active: true,
            running: true,
            flush_paragraph: false,
        }
    }

    /// With the streaming engine of that name, below the same directory. An engine that is not
    /// known is an error.
    pub fn with_stream_engine(self, engine: &str) -> (r: Result<Self, ConfigError>)
        ensures
            engine@ == "zipformer"@ ==> r == Ok::<Self, ConfigError>(self),
            engine@ != "zipformer"@ && engine@ == "x-asr"@ ==> {
                &&& r matches Ok(c)
                &&& is_x_asr(c.streaming, dir_view(self.models_dir))
                &&& c.streaming.hotwords@.len() == 0
                &&& c == (Stage1Config { streaming: c.streaming, ..self })
            },
            engine@ != "zipformer"@ && engine@ != "x-asr"@ ==> {
                &&& r matches Err(e)
                &&& e.message@ == unsupported_engine(debug_quoted(engine@))
            },
    {
        if same(engine, "zipformer") {
            return Ok(self);
        }
        if same(engine, "x-asr") {
            let mut c = self;
            c.streaming = StreamModel {
                encoder: resolve_model(&c.models_dir, "MODELS::x-asr/encoder-480ms.onnx"),
                decoder: resolve_model(&c.models_dir, "MODELS::x-asr/decoder-480ms.onnx"),
                joiner: resolve_model(&c.models_dir, "MODELS::x-asr/joiner-480ms.onnx"),
                tokens: resolve_model(&c.models_dir, "MODELS::x-asr/tokens.txt"),
                bpe_vocab: resolve_model(&c.models_dir, "MODELS::x-asr/bpe.vocab"),
                hotwords: Vec::new(),
            };
            return Ok(c);
        }
        Err(engine_error(debug_text(engine).as_str()))
    }

    /// With the batch recogniser behind an endpoint.
    pub fn with_remote_asr(self, endpoint: &str, model: &str) -> (r: Self)
        ensures
            r.asr_kind matches ProviderKind::Remote { endpoint: e } && e@ == endpoint@,
            r.asr_model@ == model@,
            r == (Stage1Config { asr_kind: r.asr_kind, asr_model: r.asr_model, ..self }),
    {
        let mut c = self;
        c.asr_kind = ProviderKind::Remote { endpoint: endpoint.to_owned() };
        c.asr_model = model.to_owned();
        c
    }
}

/// The directory that the choices put the models in.
pub open spec fn chosen_dir(asr: AsrSpec) -> Option<Seq<char>> {
    match asr {
        AsrSpec::Local { model_dir, .. } => dir_view(model_dir),
        _ => None,
    }
}

/// Is the streaming engine known?
pub open spec fn engine_known(spec: PipelineSpec) -> bool {
    spec.stream.model@ == "zipformer"@ || spec.stream.model@ == "x-asr"@
}

/// Is the batch recogniser one that can run?
pub open spec fn backend_known(spec: PipelineSpec) -> bool {
    match spec.asr {
        AsrSpec::Local { backend, .. } => backend@ == "sensevoice"@,
        _ => true,
    }
}

/// `c` is the configuration that the choices ask for.
pub open spec fn configured(
    c: Stage1Config,
    spec: PipelineSpec,
    active: bool,
    running: bool,
    flush: bool,
) -> bool {
    let dir = chosen_dir(spec.asr);
    &&& c.scout_addr@ == spec.scout_addr@
    &&& dir_view(c.models_dir) == dir
    &&& default_models(c, dir)
    &&& spec.stream.model@ == "zipformer"@ ==> is_zipformer(c.streaming, dir)
    &&& spec.stream.model@ != "zipformer"@ ==> is_x_asr(c.streaming, dir)
    &&& views(c.streaming.hotwords@) == views(spec.hotwords@)
    &&& c.scout_chunk_ms == spec.scout_chunk_ms
    &&& cut_by(c, spec.vad)
    &&& c.active == active
    &&& c.running == running
    &&& c.flush_paragraph == flush
    &&& c.batch_jobs
    &&& c.batch_enabled == !(spec.asr is Disabled)
    &&& match spec.asr {
        AsrSpec::Remote { endpoint, model } => {
            &&& c.asr_kind matches ProviderKind::Remote { endpoint: e }
            &&& e@ == endpoint@
            &&& c.asr_model@ == model@
            &&& c.asr.provider is None
            &&& c.asr.num_threads is None
        },
        AsrSpec::Local { hardware, threads, .. } => {
            &&& c.asr_kind is Local
            &&& c.asr.provider matches Some(p)
            &&& p@ == hardware@
            &&& c.asr.num_threads == Some(threads)
        },
        AsrSpec::Disabled => {
            &&& c.asr_kind is Local
            &&& c.asr.provider is None
            &&& c.asr.num_threads is None
        },
    }
}

/// The configuration that the choices ask for. An engine or a recogniser that is not there is an
/// error; nothing else is put in its place. The hot words go in after the engine was chosen.
pub fn stage1_config(spec: &PipelineSpec, active: bool, running: bool, flush_paragraph: bool) -> (r:
    Result<Stage1Config, ConfigError>)
    ensures
        r is Ok == (engine_known(*spec) && backend_known(*spec)),
        r matches Ok(c) ==> configured(c, *spec, active, running, flush_paragraph),
        !engine_known(*spec) ==> {
            &&& r matches Err(e)
            &&& e.message@ == unsupported_engine(debug_quoted(spec.stream.model@))
        },
        engine_known(*spec) && !backend_known(*spec) ==> {
            &&& r matches Err(e)
            &&& e.message@ == "asr.local.model: "@ + (spec.asr->Local_backend)@
                + " 不支持——本地批式仅 sensevoice (whisper/qwen3-asr 模型已删; qwen3-asr 请用 asr.backend: remote)"@
        },
{
    let model_dir = match &spec.asr {
        AsrSpec::Local { backend: _, language: _, hardware: _, threads: _, model_dir } =>
            model_dir.clone(),
        _ => None,
    };
    let mut cfg = Stage1Config::with_models_dir(spec.scout_addr.as_str(), model_dir);
    cfg.active = active;
    cfg.running = running;
    cfg.flush_paragraph = flush_paragraph;
    cfg.scout_chunk_ms = spec.scout_chunk_ms;
    cfg.vad.threshold_milli = spec.vad.threshold_milli;
    cfg.vad.min_silence_us = spec.vad.min_silence_us;
    cfg.vad.min_speech_us = spec.vad.min_speech_us;
    cfg.vad.max_speech_us = spec.vad.max_speech_us;
    cfg.vad.edge_margin_us = spec.vad.edge_margin_us;
    cfg.merge_gap_us = spec.vad.merge_gap_us;
    let mut cfg = match cfg.with_stream_engine(spec.stream.model.as_str()) {
        Ok(c) => c,
        Err(e) => {
            return Err(e);
        },
    };
    cfg.streaming.hotwords = clone_words(spec.hotwords.as_slice());
    match &spec.asr {
        AsrSpec::Remote { endpoint, model } => Ok(
            cfg.with_remote_asr(endpoint.as_str(), model.as_str()),
        ),
        AsrSpec::Disabled => {
            cfg.batch_enabled = false;
            Ok(cfg)
        },
        AsrSpec::Local { backend, language: _, hardware, threads, model_dir: _ } => {
            if !same(backend.as_str(), "sensevoice") {
                let mut message = "asr.local.model: ".to_owned();
                message.append(backend.as_str());
                message.append(
                    " 不支持——本地批式仅 sensevoice (whisper/qwen3-asr 模型已删; qwen3-asr 请用 asr.backend: remote)",
                );
                return Err(ConfigError { message });
            }
            cfg.asr.provider = Some(hardware.clone());
            cfg.asr.num_threads = Some(*threads);
            Ok(cfg)
        },
    }
}

/// Batch recognition switched off: every answer is empty.
#[derive(Clone, Copy, Debug)]
pub struct DisabledAsr;

impl AsrProvider for DisabledAsr {
    fn recognize(&self, _pcm: &[i16], _sample_rate: u32) -> (r: Result<String, ProviderError>)
        ensures
            r matches Ok(t) && t@.len() == 0,
    {
        Ok(String::new())
    }
}

/// Who recognises the batches.
pub enum BatchBackend {
    /// Nobody: see [`DisabledAsr`].
    Disabled,
    /// The recogniser in the process, whose model has to be loaded.
    Local,
    /// The service behind an endpoint.
    Remote(HttpAsr),
}

/// Who recognises the batches. Switched off goes before everything else.
pub fn batch_backend(cfg: &Stage1Config) -> (r: BatchBackend)
    ensures
        !cfg.batch_enabled ==> r is Disabled,
        cfg.batch_enabled && cfg.asr_kind is Local ==> r is Local,
        cfg.batch_enabled ==> (cfg.asr_kind matches ProviderKind::Remote { endpoint } ==> {
            &&& r matches BatchBackend::Remote(h)
            &&& h.remote.endpoint@ == endpoint@
            &&& h.remote.model@ == cfg.asr_model@
            &&& h.remote.timeout_ms == ASR_TIMEOUT
            &&& h.remote.circuit@ is None
        }),
{
    if !cfg.batch_enabled {
        return BatchBackend::Disabled;
    }
    match &cfg.asr_kind {
        ProviderKind::Local => BatchBackend::Local,
        ProviderKind::Remote { endpoint } => BatchBackend::Remote(
            HttpAsr::new(endpoint.as_str(), cfg.asr_model.as_str()),
        ),
    }
}

/// The language model that the choices ask for; `None` where there is to be none.
pub fn stage2_endpoint(spec: &PipelineSpec) -> (r: Option<HttpLlm>)
    ensures
        r is Some == spec.llm is Remote,
        spec.llm matches LlmSpec::Remote { endpoint, model } ==> {
            &&& r matches Some(h)
            &&& h.remote.endpoint@ == endpoint@
            &&& h.remote.model@ == model@
            &&& h.remote.timeout_ms == LLM_TIMEOUT
            &&& h.remote.circuit@ is None
        },
{
    match &spec.llm {
        LlmSpec::Disabled => None,
        LlmSpec::Remote { endpoint, model } => Some(
            HttpLlm::new(endpoint.as_str(), model.as_str()),
        ),
    }
}

/// The calibration of a pipeline: a language model, or none.
pub enum Calibration<L: LlmProvider> {
    PassThrough(PassThroughCalibrator),
    Model(Stage2CalibratorImpl<L>),
}

/// The calibration over a language model, or none where there is none.
pub fn stage2_calibrator<L: LlmProvider>(
    llm: Option<L>,
    hotwords: Vec<String>,
    corrections: Vec<(String, String)>,
    input: LlmInput,
) -> (r: Calibration<L>)
    ensures
        llm is None ==> r is PassThrough,
        llm matches Some(l) ==> {
            &&& r matches Calibration::Model(c)
            &&& c@ == (CalibratorView {
                llm: l,
                hotwords: views(hotwords@),
                corrections: pair_views(corrections@),
                input,
            })
        },
{
    match llm {
        None => Calibration::PassThrough(PassThroughCalibrator),
        Some(l) => Calibration::Model(Stage2CalibratorImpl::new(l, hotwords, corrections, input)),
    }
}

/// Is it the same calibration: both none, or one that goes by the same?
pub open spec fn same_calibration<L: LlmProvider>(a: Calibration<L>, b: Calibration<L>) -> bool {
    match (a, b) {
        (Calibration::PassThrough(_), Calibration::PassThrough(_)) => true,
        (Calibration::Model(x), Calibration::Model(y)) => x@ == y@,
        _ => false,
    }
}

impl<L: LlmProvider> Stage2Calibrator for Calibration<L> {
    fn calibrate_paragraph(&mut self, paragraph_id: ParagraphId, sentences: &[VadSentence]) -> (r:
        String)
        ensures
            match *old(self) {
                Calibration::PassThrough(_) => r@ == best_texts(sentences@),
                Calibration::Model(c) => calibrated(c@, sentences@, r@),
            },
            same_calibration(*old(self), *final(self)),
    {
        match self {
            Calibration::PassThrough(c) => c.calibrate_paragraph(paragraph_id, sentences),
            Calibration::Model(c) => c.calibrate_paragraph(paragraph_id, sentences),
        }
    }

    fn finalize_paragraph(&mut self, paragraph: &VadParagraph) -> (r: String)
        ensures
            match *old(self) {
                Calibration::PassThrough(_) => r@ == paragraph.best(),
                Calibration::Model(c) => calibrated(c@, paragraph.sentences@, r@),
            },
            same_calibration(*old(self), *final(self)),
    {
        match self {
            Calibration::PassThrough(c) => c.finalize_paragraph(paragraph),
            Calibration::Model(c) => c.finalize_paragraph(paragraph),
        }
    }
}

/// Law: a model is looked for below the directory that was chosen, under its bare name, and in the
/// shared place under its full name where none was.
pub proof fn law_models_are_looked_for_below_the_chosen_directory(d: Seq<char>, name: Seq<char>)
    ensures
        model_at(Some(d), "MODELS::"@ + name) == ModelPathView::File(d + "/"@ + name),
        !has_prefix(name, "MODELS::"@) ==> model_at(Some(d), name) == ModelPathView::File(
            d + "/"@ + name,
        ),
        model_at(None, name) == ModelPathView::Shared(name),
{
    let rel = "MODELS::"@ + name;
    assert(rel.take("MODELS::"@.len() as int) =~= "MODELS::"@);
    assert(rel.skip("MODELS::"@.len() as int) =~= name);
}

/// Law: the configuration is the one that was asked for: the source, the words, the cut of the
/// sentences and paragraphs and the switches go over as they are.
pub proof fn law_the_configuration_is_what_was_asked_for(
    c: Stage1Config,
    spec: PipelineSpec,
    active: bool,
    running: bool,
    flush: bool,
)
    requires
        configured(c, spec, active, running, flush),
    ensures
        c.scout_addr@ == spec.scout_addr@,
        c.scout_chunk_ms == spec.scout_chunk_ms,
        views(c.streaming.hotwords@) == views(spec.hotwords@),
        c.vad.threshold_milli == spec.vad.threshold_milli,
        c.vad.min_silence_us == spec.vad.min_silence_us,
        c.vad.min_speech_us == spec.vad.min_speech_us,
        c.vad.max_speech_us == spec.vad.max_speech_us,
        c.vad.edge_margin_us == spec.vad.edge_margin_us,
        c.merge_gap_us == spec.vad.merge_gap_us,
        c.active == active,
        c.running == running,
        c.flush_paragraph == flush,
        spec.asr is Disabled <==> !c.batch_enabled,
        c.batch_jobs,
        spec.asr is Remote <==> c.asr_kind is Remote,
        spec.asr matches AsrSpec::Remote { endpoint, model } ==> {
            &&& c.asr_kind matches ProviderKind::Remote { endpoint: e }
            &&& e@ == endpoint@
            &&& c.asr_model@ == model@
        },
        spec.asr matches AsrSpec::Local { hardware, threads, .. } ==> {
            &&& c.asr.provider matches Some(p)
            &&& p@ == hardware@
            &&& c.asr.num_threads == Some(threads)
        },
{
}

/// Law: the parts of a streaming recogniser are in their places, all of one engine, and which one
/// goes by its name.
pub proof fn law_the_engine_is_the_one_named(
    c: Stage1Config,
    spec: PipelineSpec,
    active: bool,
    running: bool,
    flush: bool,
)
    requires
        configured(c, spec, active, running, flush),
        chosen_dir(spec.asr) is None,
        engine_known(spec),
    ensures
        spec.stream.model@ == "zipformer"@ ==> {
            &&& c.streaming.encoder@ == ModelPathView::Shared(
                "MODELS::zipformer-streaming-zh-en/encoder-epoch-99-avg-1.onnx"@,
            )
            &&& c.streaming.decoder@ == ModelPathView::Shared(
                "MODELS::zipformer-streaming-zh-en/decoder-epoch-99-avg-1.onnx"@,
            )
            &&& c.streaming.joiner@ == ModelPathView::Shared(
                "MODELS::zipformer-streaming-zh-en/joiner-epoch-99-avg-1.onnx"@,
            )
            &&& c.streaming.tokens@ == ModelPathView::Shared(
                "MODELS::zipformer-streaming-zh-en/tokens.txt"@,
            )
            &&& c.streaming.bpe_vocab@ == ModelPathView::Shared(
                "MODELS::zipformer-streaming-zh-en/bpe.vocab"@,
            )
        },
        spec.stream.model@ == "x-asr"@ ==> {
            &&& c.streaming.encoder@ == ModelPathView::Shared("MODELS::x-asr/encoder-480ms.onnx"@)
            &&& c.streaming.decoder@ == ModelPathView::Shared("MODELS::x-asr/decoder-480ms.onnx"@)
            &&& c.streaming.joiner@ == ModelPathView::Shared("MODELS::x-asr/joiner-480ms.onnx"@)
            &&& c.streaming.tokens@ == ModelPathView::Shared("MODELS::x-asr/tokens.txt"@)
            &&& c.streaming.bpe_vocab@ == ModelPathView::Shared("MODELS::x-asr/bpe.vocab"@)
        },
{
    reveal_strlit("zipformer");
    reveal_strlit("x-asr");
    assert("zipformer"@.len() != "x-asr"@.len());
}

/// Law: a directory can be chosen only for a recogniser in the process.
pub proof fn law_only_local_recognisers_choose_a_directory(asr: AsrSpec)
    ensures
        asr is Remote ==> chosen_dir(asr) is None,
        asr is Disabled ==> chosen_dir(asr) is None,
        asr matches AsrSpec::Local { model_dir: Some(d), .. } ==> chosen_dir(asr) == Some(d@),
        asr matches AsrSpec::Local { model_dir: None, .. } ==> chosen_dir(asr) is None,
{
}

/// Law: batch passes are made by nobody where they are switched off, by the service where one was
/// named, and in the process otherwise.
pub proof fn law_batch_passes_are_made_where_asked_for(c: Stage1Config, r: BatchBackend)
    requires
        call_ensures(batch_backend, (&c,), r),
    ensures
        r is Disabled <==> !c.batch_enabled,
        r is Local <==> c.batch_enabled && c.asr_kind is Local,
        r matches BatchBackend::Remote(h) ==> (c.asr_kind matches ProviderKind::Remote { endpoint }
            && h.remote.endpoint@ == endpoint@) && h.remote.model@ == c.asr_model@
            && h.remote.timeout_ms == 3_000,
{
}

/// Law: the language model is the one behind the endpoint that was named, and there is none
/// otherwise.
pub proof fn law_the_model_is_the_one_named(spec: PipelineSpec, r: Option<HttpLlm>)
    requires
        call_ensures(stage2_endpoint, (&spec,), r),
    ensures
        spec.llm is Disabled <==> r is None,
        spec.llm matches LlmSpec::Remote { endpoint, model } ==> (r matches Some(h)
            && h.remote.endpoint@ == endpoint@ && h.remote.model@ == model@ && h.remote.timeout_ms
            == 10_000),
{
}

/// Law: a pipeline is configured exactly if its streaming engine and its local recogniser are known,
/// and then as it was asked for.
pub proof fn law_known_engines_are_configured(
    spec: PipelineSpec,
    active: bool,
    running: bool,
    flush: bool,
    r: Result<Stage1Config, ConfigError>,
)
    requires
        call_ensures(stage1_config, (&spec, active, running, flush), r),
    ensures
        r is Ok <==> (spec.stream.model@ == "zipformer"@ || spec.stream.model@ == "x-asr"@) && (
        spec.asr matches AsrSpec::Local { backend, .. } ==> backend@ == "sensevoice"@),
        r matches Ok(c) ==> c.merge_gap_us == spec.vad.merge_gap_us && c.scout_addr@
            == spec.scout_addr@ && c.active == active && c.running == running && c.flush_paragraph
            == flush && (c.batch_enabled <==> !(spec.asr is Disabled)),
{
}

/// Law: without any settings a pause of a second ends a sentence and one of five seconds a
/// paragraph, and everything runs in the process.
pub proof fn law_the_default_cut(addr: &str, r: Stage1Config)
    requires
        call_ensures(Stage1Config::new, (addr,), r),
    ensures
        r.scout_addr@ == addr@,
        r.vad.threshold_milli == 500,
        r.vad.min_silence_us == 1_000_000,
        r.vad.min_speech_us == 300_000,
        r.vad.max_speech_us == 28_000_000,
        r.vad.edge_margin_us == 300_000,
        r.merge_gap_us == 5_000_000,
        r.batch_enabled && r.batch_jobs && r.active && r.running && !r.flush_paragraph,
        r.asr_kind is Local,
        r.streaming.hotwords@.len() == 0,
        r.models_dir is None,
{
}

/// Law: a streaming engine is taken by its name, with all of its parts, and an unknown one is
/// refused by name.
pub proof fn law_an_engine_is_taken_by_its_name(
    c: Stage1Config,
    engine: &str,
    r: Result<Stage1Config, ConfigError>,
)
    requires
        call_ensures(Stage1Config::with_stream_engine, (c, engine), r),
    ensures
        r is Ok <==> engine@ == "zipformer"@ || engine@ == "x-asr"@,
        engine@ == "zipformer"@ ==> r == Ok::<Stage1Config, ConfigError>(c),
        r matches Err(e) ==> exists|a: Seq<char>, b: Seq<char>|
            e.message@ == #[trigger] (a + debug_quoted(engine@) + b),
        r matches Ok(d) ==> d.vad == c.vad && d.asr == c.asr && d.merge_gap_us == c.merge_gap_us,
{
    if let Err(e) = r {
        let a = "unsupported streaming engine "@;
        let b = " (supported: \"zipformer\" | \"x-asr\")"@;
        assert(e.message@ =~= a + debug_quoted(engine@) + b);
    }
}

/// Law: without a model paragraphs go through as they are; with one they are calibrated by it, with
/// the words, the corrections and the transcripts that were chosen.
pub proof fn law_calibration_goes_by_what_was_chosen<L: LlmProvider>(
    llm: Option<L>,
    hotwords: Vec<String>,
    corrections: Vec<(String, String)>,
    input: LlmInput,
    r: Calibration<L>,
    i: int,
)
    requires
        call_ensures(stage2_calibrator::<L>, (llm, hotwords, corrections, input), r),
    ensures
        llm is None <==> r is PassThrough,
        r matches Calibration::Model(c) ==> {
            &&& Some(c@.llm) == llm
            &&& c@.input == input
            &&& c@.hotwords == views(hotwords@)
            &&& c@.corrections.len() == corrections@.len()
            &&& 0 <= i < corrections@.len() ==> c@.corrections[i] == (
                corrections@[i].0@,
                corrections@[i].1@,
            )
        },
{
}

} // verus!
