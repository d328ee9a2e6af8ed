//! Remote models behind an OpenAI-compatible endpoint: where requests go and what they hold,
//! when none is sent because the service just failed, and how a router is brought to load a
//! model. The sending is done by the caller.

use vstd::prelude::*;
use vstd::string::*;

use crate::codec::{base64_text, encode_base64};
use crate::json::{json_literal, json_string};
use crate::models::{ModelProvider, ProviderError};
use crate::text::{
    decimal, decimal_text, has_prefix, has_suffix, law_only_the_trailing_character_goes, same,
    strip_suffix, trim_end_char, without_trailing,
};
use crate::wav::{fits_header, pcm_to_wav, wav_file};

verus! {

/// A recognition that takes longer, in milliseconds, is given up.
pub const ASR_TIMEOUT: u64 = 3_000;

/// A completion that takes longer, in milliseconds, is given up.
pub const LLM_TIMEOUT: u64 = 10_000;

/// For this many microseconds after a failure nothing is sent.
pub const CIRCUIT_OPEN: u64 = 1_000_000;

/// A fuse: after a failure it stays open for a while, and nothing is sent meanwhile.
pub struct Circuit {
    open_until_us: Option<u64>,
}

impl View for Circuit {
    /// The time until which the fuse is open, if it is.
    type V = Option<int>;

    closed spec fn view(&self) -> Option<int> {
        match self.open_until_us {
            Some(t) => Some(t as int),
            None => None,
        }
    }
}

/// Is the fuse open at `now`?
pub open spec fn fuse_open(c: Option<int>, now: int) -> bool {
    match c {
        Some(until) => now < until,
        None => false,
    }
}

impl Default for Circuit {
    fn default() -> (r: Self)
        ensures
            r@ is None,
    {
        Circuit { open_until_us: None }
    }
}

impl Circuit {
    /// Is the fuse open?
    pub fn is_open(&self, now_us: u64) -> (r: bool)
        ensures
            r == fuse_open(self@, now_us as int),
    {
        match self.open_until_us {
            Some(until) => now_us < until,
            None => false,
        }
    }

    /// After a failure.
    pub fn trip(&mut self, now_us: u64)
        requires
            now_us <= u64::MAX - CIRCUIT_OPEN,
        ensures
            final(self)@ == Some(now_us + CIRCUIT_OPEN),
    {
        self.open_until_us = Some(now_us + CIRCUIT_OPEN);
    }

    /// After a success.
    pub fn reset(&mut self)
        ensures
            final(self)@ is None,
    {
        self.open_until_us = None;
    }

    /// After an attempt that ended at `now_us`.
    pub fn record(&mut self, ok: bool, now_us: u64)
        requires
            now_us <= u64::MAX - CIRCUIT_OPEN,
        ensures
            ok ==> final(self)@ is None,
            !ok ==> final(self)@ == Some(now_us + CIRCUIT_OPEN),
    {
        if ok {
            self.reset();
        } else {
            self.trip(now_us);
        }
    }
}

/// Law: after a failure nothing is sent for exactly the window, and a success lets everything
/// through at once.
pub proof fn law_the_fuse_holds_for_its_window(failed_at: int, now: int)
    ensures
        failed_at <= now ==> (fuse_open(Some(failed_at + CIRCUIT_OPEN), now) <==> now - failed_at
            < CIRCUIT_OPEN),
        !fuse_open(None, now),
{
}

/// An endpoint, the model behind it, the time limit and the fuse.
pub struct Remote {
    pub endpoint: String,
    pub model: String,
    pub timeout_ms: u64,
    pub circuit: Circuit,
}

fn remote(endpoint: &str, model: &str, timeout_ms: u64) -> (r: Remote)
    ensures
        r.endpoint@ == endpoint@,
        r.model@ == model@,
        r.timeout_ms == timeout_ms,
        r.circuit@ is None,
{
    Remote {
        endpoint: endpoint.to_owned(),
        model: model.to_owned(),
        timeout_ms,
        circuit: Circuit::default(),
    }
}

/// Speech recognition over HTTP.
pub struct HttpAsr {
    pub remote: Remote,
}

/// A language model over HTTP.
pub struct HttpLlm {
    pub remote: Remote,
}

/// A vision model over HTTP.
pub struct HttpVlm {
    pub remote: Remote,
}

/// What is posted to have speech recognised.
pub struct TranscriptionRequest {
    pub url: String,
    pub model: String,
    pub file_name: String,
    pub mime: String,
    pub wav: Vec<u8>,
}

/// What is posted as JSON.
pub struct JsonRequest {
    pub url: String,
    pub body: String,
}

/// A path below an endpoint, without a doubled slash.
pub open spec fn url_of(base: Seq<char>, path: Seq<char>) -> Seq<char> {
    without_trailing(base, '/') + path
}

/// A path below an endpoint.
pub fn url(base: &str, path: &str) -> (r: String)
    ensures
        r@ == url_of(base@, path@),
{
    let mut s = trim_end_char(base, '/').to_owned();
    s.append(path);
    s
}

/// The root of an endpoint: without trailing slashes and without the version.
pub open spec fn base_of(endpoint: Seq<char>) -> Seq<char> {
    let t = without_trailing(endpoint, '/');
    if has_suffix(t, "/v1"@) {
        t.take(t.len() - "/v1"@.len())
    } else {
        t
    }
}

/// The root of an endpoint.
pub fn derive_base_url(endpoint: &str) -> (r: String)
    ensures
        r@ == base_of(endpoint@),
{
    let t = trim_end_char(endpoint, '/');
    match strip_suffix(t, "/v1") {
        Some(s) => s.to_owned(),
        None => t.to_owned(),
    }
}

fn refused(message: &str) -> (r: ProviderError)
    ensures
        r.message@ == message@,
{
    ProviderError { message: message.to_owned() }
}

impl HttpAsr {
    /// With the default time limit.
    pub fn new(endpoint: &str, model: &str) -> (r: Self)
        ensures
            r.remote.endpoint@ == endpoint@,
            r.remote.model@ == model@,
            r.remote.timeout_ms == ASR_TIMEOUT,
            r.remote.circuit@ is None,
    {
        Self::with_timeout(endpoint, model, ASR_TIMEOUT)
    }

    /// With a time limit.
    pub fn with_timeout(endpoint: &str, model: &str, timeout_ms: u64) -> (r: Self)
        ensures
            r.remote.endpoint@ == endpoint@,
            r.remote.model@ == model@,
            r.remote.timeout_ms == timeout_ms,
            r.remote.circuit@ is None,
    {
        HttpAsr { remote: remote(endpoint, model, timeout_ms) }
    }

    /// May a request be sent now?
    pub fn gate(&self, now_us: u64) -> (r: Result<(), ProviderError>)
        ensures
            r is Err == fuse_open(self.remote.circuit@, now_us as int),
            r matches Err(e) ==> e.message@ == "ASR 服务不可用(熔断窗口 1000ms 内不发送)——回退流式"@,
    {
        if self.remote.circuit.is_open(now_us) {
            Err(refused("ASR 服务不可用(熔断窗口 1000ms 内不发送)——回退流式"))
        } else {
            Ok(())
        }
    }

    /// What is posted for some samples.
    pub fn request(&self, pcm: &[i16], sr: u32) -> (r: TranscriptionRequest)
        requires
            fits_header(pcm@.len() as int, sr as int),
        ensures
            r.url@ == url_of(self.remote.endpoint@, "/v1/audio/transcriptions"@),
            r.model@ == self.remote.model@,
            r.file_name@ == "audio.wav"@,
            r.mime@ == "audio/wav"@,
            r.wav@ == wav_file(pcm@, sr as int),
    {
        TranscriptionRequest {
            url: url(self.remote.endpoint.as_str(), "/v1/audio/transcriptions"),
            model: self.remote.model.clone(),
            file_name: "audio.wav".to_owned(),
            mime: "audio/wav".to_owned(),
            wav: pcm_to_wav(pcm, sr),
        }
    }
}

/// The body of a chat request: the two texts as messages, and the model, each as a JSON literal.
pub open spec fn chat_body(model: Seq<char>, system: Seq<char>, user: Seq<char>) -> Seq<char> {
    "{\"messages\":[{\"content\":"@ + system + ",\"role\":\"system\"},{\"content\":"@ + user
        + ",\"role\":\"user\"}],\"model\":"@ + model + "}"@
}

/// Writes the body of a chat request from JSON literals.
pub fn write_chat_body(model: &str, system: &str, user: &str) -> (r: String)
    ensures
        r@ == chat_body(model@, system@, user@),
{
    let mut body = "{\"messages\":[{\"content\":".to_owned();
    body.append(system);
    body.append(",\"role\":\"system\"},{\"content\":");
    body.append(user);
    body.append(",\"role\":\"user\"}],\"model\":");
    body.append(model);
    body.append("}");
    body
}

/// The body of a chat request with an image: the user's message holds the text and the URL of the
/// image. All four are JSON literals.
pub open spec fn vision_body(model: Seq<char>, system: Seq<char>, user: Seq<char>, image: Seq<char>) -> Seq<
    char,
> {
    "{\"messages\":[{\"content\":"@ + system + ",\"role\":\"system\"},{\"content\":[{\"text\":"@
        + user + ",\"type\":\"text\"},{\"image_url\":{\"url\":"@ + image
        + "},\"type\":\"image_url\"}],\"role\":\"user\"}],\"model\":"@ + model + "}"@
}

/// Writes the body of a chat request with an image from JSON literals.
pub fn write_vision_body(model: &str, system: &str, user: &str, image: &str) -> (r: String)
    ensures
        r@ == vision_body(model@, system@, user@, image@),
{
    let mut body = "{\"messages\":[{\"content\":".to_owned();
    body.append(system);
    body.append(",\"role\":\"system\"},{\"content\":[{\"text\":");
    body.append(user);
    body.append(",\"type\":\"text\"},{\"image_url\":{\"url\":");
    body.append(image);
    body.append("},\"type\":\"image_url\"}],\"role\":\"user\"}],\"model\":");
    body.append(model);
    body.append("}");
    body
}

/// The data URL of a PNG image, from its base64 text.
pub open spec fn png_url(base64: Seq<char>) -> Seq<char> {
    "data:image/png;base64,"@ + base64
}

/// The body of a request to load a model, its name being a JSON literal.
pub open spec fn load_body(model: Seq<char>) -> Seq<char> {
    "{\"name\":"@ + model + "}"@
}

/// Writes the body of a request to load a model from a JSON literal.
pub fn write_load_body(model: &str) -> (r: String)
    ensures
        r@ == load_body(model@),
{
    let mut body = "{\"name\":".to_owned();
    body.append(model);
    body.append("}");
    body
}

/// The first of the contents that a chat answer holds.
pub fn first_choice(contents: Vec<String>) -> (r: Result<String, ProviderError>)
    ensures
        contents@.len() > 0 ==> (r matches Ok(t) && t@ == contents@[0]@),
        contents@.len() == 0 ==> (r matches Err(e) && e.message@ == "no choices in response"@),
{
    if contents.len() == 0 {
        Err(refused("no choices in response"))
    } else {
        Ok(contents[0].clone())
    }
}

impl HttpLlm {
    /// With the default time limit.
    pub fn new(endpoint: &str, model: &str) -> (r: Self)
        ensures
            r.remote.endpoint@ == endpoint@,
            r.remote.model@ == model@,
            r.remote.timeout_ms == LLM_TIMEOUT,
            r.remote.circuit@ is None,
    {
        Self::with_timeout(endpoint, model, LLM_TIMEOUT)
    }

    /// With a time limit.
    pub fn with_timeout(endpoint: &str, model: &str, timeout_ms: u64) -> (r: Self)
        ensures
            r.remote.endpoint@ == endpoint@,
            r.remote.model@ == model@,
            r.remote.timeout_ms == timeout_ms,
            r.remote.circuit@ is None,
    {
        HttpLlm { remote: remote(endpoint, model, timeout_ms) }
    }

    /// May a request be sent now?
    pub fn gate(&self, now_us: u64) -> (r: Result<(), ProviderError>)
        ensures
            r is Err == fuse_open(self.remote.circuit@, now_us as int),
            r matches Err(e) ==> e.message@ == "LLM 服务不可用(熔断窗口 1000ms 内不发送)——整流回退原文"@,
    {
        if self.remote.circuit.is_open(now_us) {
            Err(refused("LLM 服务不可用(熔断窗口 1000ms 内不发送)——整流回退原文"))
        } else {
            Ok(())
        }
    }

    /// What is posted for two texts.
    pub fn request(&self, system: &str, user: &str) -> (r: JsonRequest)
        ensures
            r.url@ == url_of(self.remote.endpoint@, "/v1/chat/completions"@),
            r.body@ == chat_body(
                json_literal(self.remote.model@),
                json_literal(system@),
                json_literal(user@),
            ),
    {
        let body = write_chat_body(
            json_string(self.remote.model.as_str()).as_str(),
            json_string(system).as_str(),
            json_string(user).as_str(),
        );
        JsonRequest { url: url(self.remote.endpoint.as_str(), "/v1/chat/completions"), body }
    }

    /// Starts to bring the model online, with the default patience.
    pub fn warm(&self, now_us: u64) -> (r: Warmer)
        ensures
            r@ == (WarmerView {
                model: self.remote.model@,
                poll_interval_ms: 500,
                load_timeout_s: 60,
                start: now_us as int,
                deadline: now_us as int,
            }),
    {
        self.warm_with_options(WarmOptions::default(), now_us)
    }

    /// Starts to bring the model online.
    pub fn warm_with_options(&self, opts: WarmOptions, now_us: u64) -> (r: Warmer)
        ensures
            r@ == (WarmerView {
                model: self.remote.model@,
                poll_interval_ms: opts.poll_interval_ms,
                load_timeout_s: opts.load_timeout_s,
                start: now_us as int,
                deadline: now_us as int,
            }),
    {
        Warmer::new(self.remote.model.as_str(), opts, now_us)
    }

    /// Where the router's table of models is read.
    pub fn snapshot_url(&self) -> (r: String)
        ensures
            r@ == url_of(base_of(self.remote.endpoint@), "/admin/models"@),
    {
        let base = derive_base_url(self.remote.endpoint.as_str());
        url(base.as_str(), "/admin/models")
    }

    /// What is posted to have the model loaded.
    pub fn load_request(&self) -> (r: JsonRequest)
        ensures
            r.url@ == url_of(base_of(self.remote.endpoint@), "/admin/models/load"@),
            r.body@ == load_body(json_literal(self.remote.model@)),
    {
        let base = derive_base_url(self.remote.endpoint.as_str());
        let body = write_load_body(json_string(self.remote.model.as_str()).as_str());
        JsonRequest { url: url(base.as_str(), "/admin/models/load"), body }
    }
}

impl HttpVlm {
    /// With the default time limit.
    pub fn new(endpoint: &str, model: &str) -> (r: Self)
        ensures
            r.remote.endpoint@ == endpoint@,
            r.remote.model@ == model@,
            r.remote.timeout_ms == LLM_TIMEOUT,
            r.remote.circuit@ is None,
    {
        Self::with_timeout(endpoint, model, LLM_TIMEOUT)
    }

    /// With a time limit.
    pub fn with_timeout(endpoint: &str, model: &str, timeout_ms: u64) -> (r: Self)
        ensures
            r.remote.endpoint@ == endpoint@,
            r.remote.model@ == model@,
            r.remote.timeout_ms == timeout_ms,
            r.remote.circuit@ is None,
    {
        HttpVlm { remote: remote(endpoint, model, timeout_ms) }
    }

    /// May a request be sent now?
    pub fn gate(&self, now_us: u64) -> (r: Result<(), ProviderError>)
        ensures
            r is Err == fuse_open(self.remote.circuit@, now_us as int),
            r matches Err(e) ==> e.message@ == "VLM 服务不可用(熔断窗口 1000ms 内不发送)"@,
    {
        if self.remote.circuit.is_open(now_us) {
            Err(refused("VLM 服务不可用(熔断窗口 1000ms 内不发送)"))
        } else {
            Ok(())
        }
    }

    /// What is posted for two texts and an image.
    pub fn request(&self, system: &str, user: &str, image_png: &[u8]) -> (r: JsonRequest)
        requires
            image_png@.len() <= usize::MAX / 4,
        ensures
            r.url@ == url_of(self.remote.endpoint@, "/v1/chat/completions"@),
            r.body@ == vision_body(
                json_literal(self.remote.model@),
                json_literal(system@),
                json_literal(user@),
                json_literal(png_url(base64_text(image_png@))),
            ),
    {
        let mut data = "data:image/png;base64,".to_owned();
        data.append(encode_base64(image_png).as_str());
        let body = write_vision_body(
            json_string(self.remote.model.as_str()).as_str(),
            json_string(system).as_str(),
            json_string(user).as_str(),
            json_string(data.as_str()).as_str(),
        );
        JsonRequest { url: url(self.remote.endpoint.as_str(), "/v1/chat/completions"), body }
    }
}

impl ModelProvider for HttpAsr {
    fn kind(&self) -> (r: &'static str)
        ensures
            r@ == "remote-http"@,
    {
        "remote-http"
    }
}

impl ModelProvider for HttpLlm {
    fn kind(&self) -> (r: &'static str)
        ensures
            r@ == "remote-http"@,
    {
        "remote-http"
    }
}

impl ModelProvider for HttpVlm {
    fn kind(&self) -> (r: &'static str)
        ensures
            r@ == "remote-http"@,
    {
        "remote-http"
    }
}

/// How patiently a model is waited for.
#[derive(Clone, Copy, Debug)]
pub struct WarmOptions {
    pub poll_interval_ms: u64,
    pub load_timeout_s: u64,
}

impl Default for WarmOptions {
    fn default() -> (r: Self)
        ensures
            r.poll_interval_ms == 500,
            r.load_timeout_s == 60,
    {
        WarmOptions { poll_interval_ms: 500, load_timeout_s: 60 }
    }
}

/// How a model came to be online.
#[derive(Clone, Copy, Debug, PartialEq, Eq, Structural)]
pub struct WarmOutcome {
    /// It was online at the first look.
    pub already_online: bool,
    /// Loading was asked for.
    pub load_triggered: bool,
    pub elapsed_ms: u64,
}

/// Why a model is not online.
#[derive(Clone, Debug)]
pub enum WarmError {
    /// The router knows no such model.
    ModelNotFound(String),
    /// It took longer than this many seconds.
    LoadTimeout(u64),
    /// The router gave it up.
    LoadFailed { model: String, reason: String },
    /// The router could not be reached at this address.
    RouterUnreachable(String, String),
    /// The router answered with an error.
    RouterError { path: String, status: u16, body: String },
    /// There is no router at this endpoint.
    NotDpRouter(String),
    /// The answer could not be read.
    Parse(String),
}

/// What an error says to a reader.
pub open spec fn warm_message(e: WarmError) -> Seq<char> {
    match e {
        WarmError::ModelNotFound(m) => "model '"@ + m@
            + "' not found in dp-router (not preloaded, not in models_root)"@,
        WarmError::LoadTimeout(s) => "model load timed out after "@ + decimal(s as nat)
            + "s (may still be loading server-side)"@,
        WarmError::LoadFailed { model, reason } => "model '"@ + model@
            + "' failed to load on dp-router: "@ + reason@,
        WarmError::RouterUnreachable(url, why) => "dp-router unreachable at "@ + url@ + ": "@ + why@,
        WarmError::RouterError { path, status, body } => "dp-router error: status="@ + decimal(
            status as nat,
        ) + " for "@ + path@ + ": "@ + body@,
        WarmError::NotDpRouter(endpoint) => "endpoint "@ + endpoint@
            + " does not expose /admin/models — warm() only works against dp-router"@,
        WarmError::Parse(why) => "response parse error: "@ + why@,
    }
}

impl WarmError {
    /// What the error says to a reader.
    pub fn message(&self) -> (r: String)
        ensures
            r@ == warm_message(*self),
    {
        match self {
            WarmError::ModelNotFound(m) => {
                let mut s = "model '".to_owned();
                s.append(m.as_str());
                s.append("' not found in dp-router (not preloaded, not in models_root)");
                s
            },
            WarmError::LoadTimeout(secs) => {
                let mut s = "model load timed out after ".to_owned();
                s.append(decimal_text(*secs).as_str());
                s.append("s (may still be loading server-side)");
                s
            },
            WarmError::LoadFailed { model, reason } => {
                let mut s = "model '".to_owned();
                s.append(model.as_str());
                s.append("' failed to load on dp-router: ");
                s.append(reason.as_str());
                s
            },
            WarmError::RouterUnreachable(url, why) => {
                let mut s = "dp-router unreachable at ".to_owned();
                s.append(url.as_str());
                s.append(": ");
                s.append(why.as_str());
                s
            },
            WarmError::RouterError { path, status, body } => {
                let mut s = "dp-router error: status=".to_owned();
                s.append(decimal_text(*status as u64).as_str());
                s.append(" for ");
                s.append(path.as_str());
                s.append(": ");
                s.append(body.as_str());
                s
            },
            WarmError::NotDpRouter(endpoint) => {
                let mut s = "endpoint ".to_owned();
                s.append(endpoint.as_str());
                s.append(" does not expose /admin/models — warm() only works against dp-router");
                s
            },
            WarmError::Parse(why) => {
                let mut s = "response parse error: ".to_owned();
                s.append(why.as_str());
                s
            },
        }
    }
}

/// What the router says of a model.
#[derive(Clone, Copy, Debug, PartialEq, Eq, Structural)]
pub enum AdminStatus {
    Online,
    Offline,
    Starting,
    Unknown,
}

impl Default for AdminStatus {
    fn default() -> (r: Self)
        ensures
            r == AdminStatus::Unknown,
    {
        AdminStatus::Unknown
    }
}

/// The status that a word stands for; a word that is not known is no error.
pub open spec fn status_word(s: Seq<char>) -> AdminStatus {
    if s == "online"@ {
        AdminStatus::Online
    } else if s == "offline"@ {
        AdminStatus::Offline
    } else if s == "starting"@ {
        AdminStatus::Starting
    } else {
        AdminStatus::Unknown
    }
}

impl AdminStatus {
    /// The status that a word stands for.
    pub fn from_word(s: &str) -> (r: Self)
        ensures
            r == status_word(s@),
    {
        if same(s, "online") {
            AdminStatus::Online
        } else if same(s, "offline") {
            AdminStatus::Offline
        } else if same(s, "starting") {
            AdminStatus::Starting
        } else {
            AdminStatus::Unknown
        }
    }
}

/// A model in the router's table.
#[derive(Clone, Debug)]
pub struct AdminModel {
    pub name: String,
    pub status: AdminStatus,
}

/// The status of the first model of that name.
pub open spec fn status_in(models: Seq<AdminModel>, name: Seq<char>) -> Option<AdminStatus>
    decreases models.len(),
{
    if models.len() == 0 {
        None
    } else if models[0].name@ == name {
        Some(models[0].status)
    } else {
        status_in(models.skip(1), name)
    }
}

proof fn lemma_status_at(models: Seq<AdminModel>, name: Seq<char>, i: int)
    requires
        0 <= i <= models.len(),
        forall|j: int| 0 <= j < i ==> (#[trigger] models[j]).name@ != name,
        i < models.len() ==> models[i].name@ == name,
    ensures
        i < models.len() ==> status_in(models, name) == Some(models[i].status),
        i == models.len() ==> status_in(models, name) is None,
    decreases i,
{
    if i > 0 {
        assert(models[0].name@ != name);
        let t = models.skip(1);
        assert forall|j: int| 0 <= j < i - 1 implies (#[trigger] t[j]).name@ != name by {
            assert(t[j] == models[j + 1]);
        }
        lemma_status_at(t, name, i - 1);
    }
}

fn find_status(models: &Vec<AdminModel>, name: &str) -> (r: Option<AdminStatus>)
    ensures
        r == status_in(models@, name@),
{
    let mut i: usize = 0;
    while i < models.len()
        invariant
            0 <= i <= models.len(),
            forall|j: int| 0 <= j < i ==> (#[trigger] models@[j]).name@ != name@,
        decreases models.len() - i,
    {
        if same(models[i].name.as_str(), name) {
            proof {
                lemma_status_at(models@, name@, i as int);
            }
            return Some(models[i].status);
        }
        i = i + 1;
    }
    proof {
        lemma_status_at(models@, name@, models@.len() as int);
    }
    None
}

/// A status that means success.
pub open spec fn is_success(status: u16) -> bool {
    200 <= status < 300
}

/// What the router's answer to a look at its table means. Without such a table it is no router.
pub fn judge_snapshot(path: &str, endpoint: &str, status: u16, body: &str) -> (r: Result<
    (),
    WarmError,
>)
    ensures
        r is Ok == is_success(status),
        status == 404 ==> (r matches Err(WarmError::NotDpRouter(e)) && e@ == endpoint@),
        !is_success(status) && status != 404 ==> {
            &&& r matches Err(WarmError::RouterError { path: p, status: s, body: b })
            &&& p@ == path@
            &&& s == status
            &&& b@ == body@
        },
{
    if 200 <= status && status < 300 {
        Ok(())
    } else if status == 404 {
        Err(WarmError::NotDpRouter(endpoint.to_owned()))
    } else {
        Err(WarmError::RouterError { path: path.to_owned(), status, body: body.to_owned() })
    }
}

/// What the router's answer to a request to load means.
pub fn judge_load(path: &str, model: &str, status: u16, body: &str) -> (r: Result<(), WarmError>)
    ensures
        r is Ok == is_success(status),
        status == 404 ==> (r matches Err(WarmError::ModelNotFound(m)) && m@ == model@),
        !is_success(status) && status != 404 ==> {
            &&& r matches Err(WarmError::RouterError { path: p, status: s, body: b })
            &&& p@ == path@
            &&& s == status
            &&& b@ == body@
        },
{
    if 200 <= status && status < 300 {
        Ok(())
    } else if status == 404 {
        Err(WarmError::ModelNotFound(model.to_owned()))
    } else {
        Err(WarmError::RouterError { path: path.to_owned(), status, body: body.to_owned() })
    }
}

/// What comes next on the way to an online model.
pub enum WarmStep {
    /// It is online.
    Done(WarmOutcome),
    /// It will not be.
    Failed(WarmError),
    /// Ask the router to load it, then go on with [`Warmer::on_triggered`].
    TriggerLoad,
    /// Wait this many milliseconds, then go on with [`Warmer::on_wake`].
    Sleep(u64),
    /// Look at the router's table, then go on with [`Warmer::on_poll`].
    Poll,
}

/// Brings a model online.
pub struct Warmer {
    model: String,
    opts: WarmOptions,
    start_us: u64,
    /// When the waiting ends, once loading was asked for.
    deadline_us: u128,
}

/// The way to an online model as a value.
pub struct WarmerView {
    pub model: Seq<char>,
    pub poll_interval_ms: u64,
    pub load_timeout_s: u64,
    pub start: int,
    pub deadline: int,
}

impl View for Warmer {
    type V = WarmerView;

    closed spec fn view(&self) -> WarmerView {
        WarmerView {
            model: self.model@,
            poll_interval_ms: self.opts.poll_interval_ms,
            load_timeout_s: self.opts.load_timeout_s,
            start: self.start_us as int,
            deadline: self.deadline_us as int,
        }
    }
}

/// Whole milliseconds from `start` to `now`.
pub open spec fn elapsed_ms(start: int, now: int) -> int {
    if now > start {
        (now - start) / 1000
    } else {
        0
    }
}

impl Warmer {
    /// Starts at `now_us`.
    pub fn new(model: &str, opts: WarmOptions, now_us: u64) -> (r: Self)
        ensures
            r@ == (WarmerView {
                model: model@,
                poll_interval_ms: opts.poll_interval_ms,
                load_timeout_s: opts.load_timeout_s,
                start: now_us as int,
                deadline: now_us as int,
            }),
    {
        Warmer { model: model.to_owned(), opts, start_us: now_us, deadline_us: now_us as u128 }
    }

    fn elapsed(&self, now_us: u64) -> (r: u64)
        ensures
            r == elapsed_ms(self@.start, now_us as int),
    {
        if now_us > self.start_us {
            (now_us - self.start_us) / 1000
        } else {
            0
        }
    }

    /// The first look at the table: a model that is online is done with, any other is loaded.
    pub fn on_first(&self, models: &Vec<AdminModel>, now_us: u64) -> (r: WarmStep)
        ensures
            status_in(models@, self@.model) == Some(AdminStatus::Online) ==> r == WarmStep::Done(
                (WarmOutcome {
                    already_online: true,
                    load_triggered: false,
                    elapsed_ms: elapsed_ms(self@.start, now_us as int) as u64,
                }),
            ),
            status_in(models@, self@.model) != Some(AdminStatus::Online) ==> r
                == WarmStep::TriggerLoad,
    {
        match find_status(models, self.model.as_str()) {
            Some(AdminStatus::Online) => WarmStep::Done(
                WarmOutcome {
                    already_online: true,
                    load_triggered: false,
                    elapsed_ms: self.elapsed(now_us),
                },
            ),
            _ => WarmStep::TriggerLoad,
        }
    }

    /// Loading was asked for at `now_us`: the waiting begins.
    pub fn on_triggered(&mut self, now_us: u64) -> (r: WarmStep)
        ensures
            final(self)@ == (WarmerView {
                deadline: now_us + old(self)@.load_timeout_s * 1_000_000,
                ..old(self)@
            }),
            r == WarmStep::Sleep(old(self)@.poll_interval_ms),
    {
        self.deadline_us = (now_us as u128) + (self.opts.load_timeout_s as u128) * 1_000_000;
        WarmStep::Sleep(self.opts.poll_interval_ms)
    }

    /// The wait is over: either the time is up, or the table is looked at.
    pub fn on_wake(&self, now_us: u64) -> (r: WarmStep)
        ensures
            now_us >= self@.deadline ==> r == WarmStep::Failed(
                WarmError::LoadTimeout(self@.load_timeout_s),
            ),
            now_us < self@.deadline ==> r == WarmStep::Poll,
    {
        if (now_us as u128) >= self.deadline_us {
            WarmStep::Failed(WarmError::LoadTimeout(self.opts.load_timeout_s))
        } else {
            WarmStep::Poll
        }
    }

    /// A further look at the table: online is done with, offline has failed, anything else is
    /// waited for.
    pub fn on_poll(&self, models: &Vec<AdminModel>, now_us: u64) -> (r: WarmStep)
        ensures
            match status_in(models@, self@.model) {
                Some(AdminStatus::Online) => r == WarmStep::Done(
                    (WarmOutcome {
                        already_online: false,
                        load_triggered: true,
                        elapsed_ms: elapsed_ms(self@.start, now_us as int) as u64,
                    }),
                ),
                Some(AdminStatus::Offline) => {
                    &&& r matches WarmStep::Failed(WarmError::LoadFailed { model, reason })
                    &&& model@ == self@.model
                    &&& reason@
                        == "dp-router marked model offline (spawn failed or restart budget exhausted)"@
                },
                _ => r == WarmStep::Sleep(self@.poll_interval_ms),
            },
    {
        match find_status(models, self.model.as_str()) {
            Some(AdminStatus::Online) => WarmStep::Done(
                WarmOutcome {
                    already_online: false,
                    load_triggered: true,
                    elapsed_ms: self.elapsed(now_us),
                },
            ),
            Some(AdminStatus::Offline) => WarmStep::Failed(
                WarmError::LoadFailed {
                    model: self.model.clone(),
                    reason: "dp-router marked model offline (spawn failed or restart budget exhausted)".to_owned(),
                },
            ),
            _ => WarmStep::Sleep(self.opts.poll_interval_ms),
        }
    }
}

/// Law: slashes at the end of an address do not matter: the path stands right behind the rest.
pub proof fn law_a_path_stands_behind_its_address(base: Seq<char>, path: Seq<char>)
    ensures
        url_of(base.push('/'), path) == url_of(base, path),
        base.len() > 0 && base[base.len() - 1] != '/' ==> url_of(base, path) == base + path,
{
    assert(base.push('/').drop_last() =~= base);
}

/// Law: the address of a service is its endpoint without the version at its end, where it has one,
/// and without slashes behind it.
pub proof fn law_the_version_is_taken_off(base: Seq<char>)
    requires
        base.len() > 0,
        base[base.len() - 1] != '/',
    ensures
        base_of(base + "/v1"@) == base,
        base_of(base + "/v1/"@) == base,
        !has_suffix(base, "/v1"@) ==> base_of(base) == base,
        !has_suffix(base, "/v1"@) ==> base_of(base.push('/')) == base,
{
    reveal_strlit("/v1");
    reveal_strlit("/v1/");
    let a = base + "/v1"@;
    assert(a.last() == '1');
    assert(a.skip(a.len() - 3) =~= "/v1"@);
    assert(a.take(a.len() - 3) =~= base);
    let b = base + "/v1/"@;
    assert(b.last() == '/');
    assert(b.drop_last() =~= a);
    let c = base.push('/');
    assert(c.drop_last() =~= base);
    assert(without_trailing(base, '/') == base);
    assert(without_trailing(c, '/') == without_trailing(base, '/'));
}

/// Law: a chat request has the two texts in their roles, the system's first, and the model.
pub proof fn law_texts_go_out_in_their_roles(model: Seq<char>, system: Seq<char>, user: Seq<char>)
    ensures
        exists|head: Seq<char>, tail: Seq<char>|
            chat_body(model, system, user) == #[trigger] (head + ("{\"content\":"@ + system
                + ",\"role\":\"system\"}"@) + seq![','] + ("{\"content\":"@ + user
                + ",\"role\":\"user\"}"@) + tail),
        exists|head: Seq<char>, tail: Seq<char>|
            chat_body(model, system, user) == #[trigger] (head + ("\"model\":"@ + model + "}"@)
                + tail),
{
    reveal_strlit("{\"messages\":[{\"content\":");
    reveal_strlit(",\"role\":\"system\"},{\"content\":");
    reveal_strlit(",\"role\":\"user\"}],\"model\":");
    reveal_strlit("}");
    reveal_strlit("{\"content\":");
    reveal_strlit(",\"role\":\"system\"}");
    reveal_strlit(",\"role\":\"user\"}");
    reveal_strlit("\"model\":");
    let body = chat_body(model, system, user);
    let first = "{\"content\":"@ + system + ",\"role\":\"system\"}"@;
    let second = "{\"content\":"@ + user + ",\"role\":\"user\"}"@;
    let start = "{\"messages\":[{\"content\":"@;
    let head = start.take(start.len() - "{\"content\":"@.len());
    assert(start =~= head + "{\"content\":"@);
    let middle = ",\"role\":\"system\"},{\"content\":"@;
    assert(middle =~= ",\"role\":\"system\"}"@ + seq![','] + "{\"content\":"@);
    let close = ",\"role\":\"user\"}],\"model\":"@;
    let rest = close.skip(",\"role\":\"user\"}"@.len() as int);
    assert(close =~= ",\"role\":\"user\"}"@ + rest);
    let tail = rest + model + "}"@;
    assert(body =~= head + first + seq![','] + second + tail);
    let named = "\"model\":"@ + model + "}"@;
    let before = close.take(close.len() - "\"model\":"@.len());
    assert(close =~= before + "\"model\":"@);
    let whole = start + system + middle + user + before;
    assert(body =~= whole + named + Seq::<char>::empty());
}

/// Law: a request with an image has the system's text, the user's text and the image, each under
/// its own name, and the model.
pub proof fn law_an_image_goes_out_beside_its_text(
    model: Seq<char>,
    system: Seq<char>,
    user: Seq<char>,
    image: Seq<char>,
)
    ensures
        exists|a: Seq<char>, b: Seq<char>|
            vision_body(model, system, user, image) == #[trigger] (a + ("{\"content\":"@ + system
                + ",\"role\":\"system\"}"@) + b),
        exists|a: Seq<char>, b: Seq<char>|
            vision_body(model, system, user, image) == #[trigger] (a + ("{\"text\":"@ + user
                + ",\"type\":\"text\"}"@) + b),
        exists|a: Seq<char>, b: Seq<char>|
            vision_body(model, system, user, image) == #[trigger] (a + ("{\"url\":"@ + image + "}"@)
                + b),
        exists|a: Seq<char>, b: Seq<char>|
            vision_body(model, system, user, image) == #[trigger] (a + ("\"model\":"@ + model + "}"@)
                + b),
{
    reveal_strlit("{\"messages\":[{\"content\":");
    reveal_strlit(",\"role\":\"system\"},{\"content\":[{\"text\":");
    reveal_strlit(",\"type\":\"text\"},{\"image_url\":{\"url\":");
    reveal_strlit("},\"type\":\"image_url\"}],\"role\":\"user\"}],\"model\":");
    reveal_strlit("}");
    reveal_strlit("{\"content\":");
    reveal_strlit(",\"role\":\"system\"}");
    reveal_strlit("{\"text\":");
    reveal_strlit(",\"type\":\"text\"}");
    reveal_strlit("{\"url\":");
    reveal_strlit("\"model\":");
    let p1 = "{\"messages\":[{\"content\":"@;
    let p2 = ",\"role\":\"system\"},{\"content\":[{\"text\":"@;
    let p3 = ",\"type\":\"text\"},{\"image_url\":{\"url\":"@;
    let p4 = "},\"type\":\"image_url\"}],\"role\":\"user\"}],\"model\":"@;
    let p5 = "}"@;
    let body = vision_body(model, system, user, image);
    assert(body == p1 + system + p2 + user + p3 + image + p4 + model + p5);
    let none = Seq::<char>::empty();
    assert(p1.skip(p1.len() - "{\"content\":"@.len()) =~= "{\"content\":"@);
    assert(p2.take(",\"role\":\"system\"}"@.len() as int) =~= ",\"role\":\"system\"}"@);
    assert(p2.skip(p2.len() - "{\"text\":"@.len()) =~= "{\"text\":"@);
    assert(p3.take(",\"type\":\"text\"}"@.len() as int) =~= ",\"type\":\"text\"}"@);
    assert(p3.skip(p3.len() - "{\"url\":"@.len()) =~= "{\"url\":"@);
    assert(p4.take(1) =~= "}"@);
    assert(p4.skip(p4.len() - "\"model\":"@.len()) =~= "\"model\":"@);
    assert(p5.take(1) =~= "}"@);
    let end = p4 + model + p5;
    lemma_framed(none, p1, system, p2, user + p3 + image + end, "{\"content\":"@, ",\"role\":\"system\"}"@);
    assert(none + p1 + system + p2 + (user + p3 + image + end) =~= body);
    lemma_framed(p1 + system, p2, user, p3, image + end, "{\"text\":"@, ",\"type\":\"text\"}"@);
    assert((p1 + system) + p2 + user + p3 + (image + end) =~= body);
    lemma_framed(p1 + system + p2 + user, p3, image, p4, model + p5, "{\"url\":"@, "}"@);
    assert((p1 + system + p2 + user) + p3 + image + p4 + (model + p5) =~= body);
    lemma_framed(p1 + system + p2 + user + p3 + image, p4, model, p5, none, "\"model\":"@, "}"@);
    assert((p1 + system + p2 + user + p3 + image) + p4 + model + p5 + none =~= body);
}

proof fn lemma_framed(
    left: Seq<char>,
    before: Seq<char>,
    value: Seq<char>,
    after: Seq<char>,
    right: Seq<char>,
    open: Seq<char>,
    close: Seq<char>,
)
    requires
        has_suffix(before, open),
        has_prefix(after, close),
    ensures
        exists|a: Seq<char>, b: Seq<char>|
            left + before + value + after + right == #[trigger] (a + (open + value + close) + b),
{
    let a = left + before.take(before.len() - open.len());
    let b = after.skip(close.len() as int) + right;
    assert(before =~= before.take(before.len() - open.len()) + open);
    assert(after =~= close + after.skip(close.len() as int));
    assert(left + before + value + after + right =~= a + (open + value + close) + b);
}

/// Law: the status of a model is that of the first entry of its name; one without an entry has
/// none.
pub proof fn law_the_first_entry_counts(models: Seq<AdminModel>, name: Seq<char>, i: int)
    ensures
        0 <= i < models.len() && models[i].name@ == name && (forall|j: int|
            0 <= j < i ==> (#[trigger] models[j]).name@ != name) ==> status_in(models, name) == Some(
            models[i].status,
        ),
        (forall|j: int| 0 <= j < models.len() ==> (#[trigger] models[j]).name@ != name) ==> status_in(
            models,
            name,
        ) is None,
    decreases models.len(),
{
    if models.len() > 0 {
        let rest = models.skip(1);
        law_the_first_entry_counts(rest, name, i - 1);
        assert forall|j: int| 0 <= j < rest.len() implies #[trigger] rest[j] == models[j + 1] by {}
        if 0 < i < models.len() && models[i].name@ == name && (forall|j: int|
            0 <= j < i ==> (#[trigger] models[j]).name@ != name) {
            assert(models[0].name@ != name);
            assert forall|j: int| 0 <= j < i - 1 implies (#[trigger] rest[j]).name@ != name by {
                assert(models[j + 1].name@ != name);
            }
            assert(rest[i - 1] == models[i]);
        }
        if forall|j: int| 0 <= j < models.len() ==> (#[trigger] models[j]).name@ != name {
            assert(models[0].name@ != name);
            assert forall|j: int| 0 <= j < rest.len() implies (#[trigger] rest[j]).name@ != name by {
                assert(models[j + 1].name@ != name);
            }
        }
    }
}

/// Law: each status is read from its own word, and any other word is unknown.
pub proof fn law_statuses_are_read_from_their_words(s: Seq<char>)
    ensures
        status_word("online"@) == AdminStatus::Online,
        status_word("offline"@) == AdminStatus::Offline,
        status_word("starting"@) == AdminStatus::Starting,
        status_word(s) == AdminStatus::Online ==> s == "online"@,
        status_word(s) == AdminStatus::Offline ==> s == "offline"@,
        status_word(s) == AdminStatus::Starting ==> s == "starting"@,
{
    reveal_strlit("online");
    reveal_strlit("offline");
    reveal_strlit("starting");
    assert("online"@.len() == 6 && "offline"@.len() == 7 && "starting"@.len() == 8);
}

/// Law: warming ends well only with the model online: a step is done exactly where the table says
/// so, a model that is offline after loading was asked for has failed, and until the time is up
/// anything else is waited for.
pub proof fn law_warming_ends_with_the_model_online(
    w: Warmer,
    models: Vec<AdminModel>,
    now: u64,
    first: WarmStep,
    poll: WarmStep,
    wake: WarmStep,
)
    requires
        call_ensures(Warmer::on_first, (&w, &models, now), first),
        call_ensures(Warmer::on_poll, (&w, &models, now), poll),
        call_ensures(Warmer::on_wake, (&w, now), wake),
    ensures
        ({
            let online = status_in(models@, w@.model) == Some(AdminStatus::Online);
            &&& first is Done <==> online
            &&& poll is Done <==> online
            &&& !online ==> first is TriggerLoad
            &&& poll is Failed <==> status_in(models@, w@.model) == Some(AdminStatus::Offline)
            &&& !(poll is Done) && !(poll is Failed) ==> poll == WarmStep::Sleep(w@.poll_interval_ms)
            &&& wake is Failed <==> now >= w@.deadline
            &&& wake is Poll <==> now < w@.deadline
        }),
{
}

/// Law: an answer is accepted exactly where its status says so; a missing table means that there
/// is no router, a missing model that the router does not know it, and any other answer is kept.
pub proof fn law_answers_are_judged_by_their_status(
    path: &str,
    name: &str,
    status: u16,
    body: &str,
    table: Result<(), WarmError>,
    load: Result<(), WarmError>,
)
    requires
        call_ensures(judge_snapshot, (path, name, status, body), table),
        call_ensures(judge_load, (path, name, status, body), load),
    ensures
        table is Ok <==> 200 <= status <= 299,
        load is Ok <==> 200 <= status <= 299,
        status == 404 ==> (table matches Err(WarmError::NotDpRouter(e)) && e@ == name@) && (
        load matches Err(WarmError::ModelNotFound(m)) && m@ == name@),
        status == 500 ==> (table matches Err(WarmError::RouterError { path: p, status: s, body: b })
            && p@ == path@ && s == 500 && b@ == body@) && (load matches Err(
            WarmError::RouterError { path: p, status: s, body: b },
        ) && p@ == path@ && s == 500 && b@ == body@),
{
}

/// Law: the first of the answers counts.
pub proof fn law_the_first_choice_counts(contents: Vec<String>, r: Result<String, ProviderError>)
    requires
        call_ensures(first_choice, (contents,), r),
    ensures
        r is Ok <==> contents@.len() > 0,
        r matches Ok(t) ==> t@ == contents@[0]@,
{
}

/// Law: time passed is counted in whole milliseconds, and there is none where the clock went back.
pub proof fn law_time_passed_is_cut_off(start: int, now: int)
    ensures
        now >= start ==> 0 <= (now - start) - 1000 * elapsed_ms(start, now) < 1000,
        now <= start ==> elapsed_ms(start, now) == 0,
{
}

/// Law: every failure is told with what it is about: the model, the seconds, the address, the
/// status or the reason.
pub proof fn law_failures_are_told_with_their_cause(e: WarmError)
    ensures
        e matches WarmError::ModelNotFound(m) ==> has_prefix(warm_message(e), "model '"@ + m@),
        e matches WarmError::LoadTimeout(s) ==> has_prefix(
            warm_message(e),
            "model load timed out after "@ + decimal(s as nat),
        ),
        e matches WarmError::LoadFailed { model, reason } ==> has_prefix(
            warm_message(e),
            "model '"@ + model@,
        ) && has_suffix(warm_message(e), reason@),
        e matches WarmError::RouterUnreachable(url, why) ==> has_prefix(
            warm_message(e),
            "dp-router unreachable at "@ + url@,
        ) && has_suffix(warm_message(e), why@),
        e matches WarmError::RouterError { path, status, body } ==> has_prefix(
            warm_message(e),
            "dp-router error: status="@ + decimal(status as nat) + " for "@ + path@,
        ) && has_suffix(warm_message(e), body@),
        e matches WarmError::NotDpRouter(endpoint) ==> has_prefix(
            warm_message(e),
            "endpoint "@ + endpoint@,
        ),
        e matches WarmError::Parse(why) ==> has_suffix(warm_message(e), why@),
{
    let t = warm_message(e);
    match e {
        WarmError::ModelNotFound(m) => {
            let p = "model '"@ + m@;
            assert(t.take(p.len() as int) =~= p);
        },
        WarmError::LoadTimeout(s) => {
            let p = "model load timed out after "@ + decimal(s as nat);
            assert(t.take(p.len() as int) =~= p);
        },
        WarmError::LoadFailed { model, reason } => {
            let p = "model '"@ + model@;
            assert(t.take(p.len() as int) =~= p);
            assert(t.skip(t.len() - reason@.len()) =~= reason@);
        },
        WarmError::RouterUnreachable(url, why) => {
            let p = "dp-router unreachable at "@ + url@;
            assert(t.take(p.len() as int) =~= p);
            assert(t.skip(t.len() - why@.len()) =~= why@);
        },
        WarmError::RouterError { path, status, body } => {
            let p = "dp-router error: status="@ + decimal(status as nat) + " for "@ + path@;
            assert(t.take(p.len() as int) =~= p);
            assert(t.skip(t.len() - body@.len()) =~= body@);
        },
        WarmError::NotDpRouter(endpoint) => {
            let p = "endpoint "@ + endpoint@;
            assert(t.take(p.len() as int) =~= p);
        },
        WarmError::Parse(why) => {
            assert(t.skip(t.len() - why@.len()) =~= why@);
        },
    }
}

/// Law: what is asked of a language model goes to the chat address below its endpoint, with each
/// text in its role, as JSON strings.
pub proof fn law_a_question_goes_to_the_chat_address(
    h: HttpLlm,
    system: &str,
    user: &str,
    r: JsonRequest,
)
    requires
        call_ensures(HttpLlm::request, (&h, system, user), r),
        h.remote.endpoint@.len() > 0,
        h.remote.endpoint@[h.remote.endpoint@.len() - 1] != '/',
    ensures
        r.url@ == h.remote.endpoint@ + "/v1/chat/completions"@,
        exists|head: Seq<char>, tail: Seq<char>|
            r.body@ == #[trigger] (head + ("{\"content\":"@ + json_literal(system@)
                + ",\"role\":\"system\"}"@) + seq![','] + ("{\"content\":"@ + json_literal(user@)
                + ",\"role\":\"user\"}"@) + tail),
        exists|head: Seq<char>, tail: Seq<char>|
            r.body@ == #[trigger] (head + ("\"model\":"@ + json_literal(h.remote.model@) + "}"@)
                + tail),
{
    law_a_path_stands_behind_its_address(h.remote.endpoint@, "/v1/chat/completions"@);
    law_texts_go_out_in_their_roles(
        json_literal(h.remote.model@),
        json_literal(system@),
        json_literal(user@),
    );
}

/// Law: audio goes to the address for transcriptions, whole, as a WAV file at its rate, for the
/// model that was chosen.
pub proof fn law_audio_goes_out_whole(h: HttpAsr, pcm: &[i16], sr: u32, r: TranscriptionRequest)
    requires
        call_ensures(HttpAsr::request, (&h, pcm, sr), r),
        h.remote.endpoint@.len() > 0,
        h.remote.endpoint@[h.remote.endpoint@.len() - 1] != '/',
    ensures
        r.url@ == h.remote.endpoint@ + "/v1/audio/transcriptions"@,
        r.model@ == h.remote.model@,
        r.wav@ == wav_file(pcm@, sr as int),
        r.file_name@ == "audio.wav"@ && r.mime@ == "audio/wav"@,
{
    law_a_path_stands_behind_its_address(h.remote.endpoint@, "/v1/audio/transcriptions"@);
}

/// Law: after a failure nothing is sent for a second, and then again; a success lets everything
/// through at once.
pub proof fn law_a_failure_holds_requests_back_for_a_second(
    c: &mut Circuit,
    ok: bool,
    failed_at: u64,
    d: Circuit,
    now: u64,
    open: bool,
)
    requires
        call_ensures(Circuit::record, (c, ok, failed_at), ()),
        d == *final(c),
        call_ensures(Circuit::is_open, (&d, now), open),
    ensures
        ok ==> !open,
        !ok ==> (open <==> now < failed_at + 1_000_000),
{
}

/// Law: once loading was asked for, the waiting ends after the time that was given, counted from
/// then.
pub proof fn law_the_waiting_is_counted_from_the_request(w: &mut Warmer, now: u64, r: WarmStep)
    requires
        call_ensures(Warmer::on_triggered, (w, now), r),
    ensures
        final(w)@.deadline == now + old(w)@.load_timeout_s * 1_000_000,
        r == WarmStep::Sleep(old(w)@.poll_interval_ms),
        final(w)@.model == old(w)@.model,
{
}

/// Law: loading is asked for at the router, below the address of the service, for the model by its
/// name.
pub proof fn law_loading_is_asked_for_by_name(h: HttpLlm, base: Seq<char>, r: JsonRequest, u: String)
    requires
        call_ensures(HttpLlm::load_request, (&h,), r),
        call_ensures(HttpLlm::snapshot_url, (&h,), u),
        base.len() > 0,
        base[base.len() - 1] != '/',
        h.remote.endpoint@ == base + "/v1"@,
    ensures
        r.url@ == base + "/admin/models/load"@,
        u@ == base + "/admin/models"@,
        r.body@ == "{\"name\":"@ + json_literal(h.remote.model@) + "}"@,
{
    law_the_version_is_taken_off(base);
    law_a_path_stands_behind_its_address(base, "/admin/models/load"@);
    law_a_path_stands_behind_its_address(base, "/admin/models"@);
}

/// Law: an image goes out beside its text, as a PNG in base64, each under its own name.
pub proof fn law_an_image_is_sent_as_png(
    h: HttpVlm,
    system: &str,
    user: &str,
    png: &[u8],
    r: JsonRequest,
)
    requires
        call_ensures(HttpVlm::request, (&h, system, user, png), r),
    ensures
        exists|a: Seq<char>, b: Seq<char>|
            r.body@ == #[trigger] (a + ("{\"url\":"@ + json_literal(
                "data:image/png;base64,"@ + base64_text(png@),
            ) + "}"@) + b),
        exists|a: Seq<char>, b: Seq<char>|
            r.body@ == #[trigger] (a + ("{\"text\":"@ + json_literal(user@)
                + ",\"type\":\"text\"}"@) + b),
        exists|a: Seq<char>, b: Seq<char>|
            r.body@ == #[trigger] (a + ("{\"content\":"@ + json_literal(system@)
                + ",\"role\":\"system\"}"@) + b),
{
    law_an_image_goes_out_beside_its_text(
        json_literal(h.remote.model@),
        json_literal(system@),
        json_literal(user@),
        json_literal(png_url(base64_text(png@))),
    );
}

} // verus!
