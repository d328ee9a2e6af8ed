//! The rules of the daemon's interface: what a request has to hold, how the settings are read,
//! where a recording goes.

use vstd::prelude::*;
use vstd::string::*;

use crate::codec::{base64_bytes, decode_base64};
use crate::json::{
    find_item, find_text, first_named, item_in, json_members, law_members_are_found_by_name,
    member_views, opt_members, parse_members, text_in, ItemView, JsonItem, Members,
};
use crate::text::{
    blank, chars_of, decimal, has_suffix, is_blank, last_at, last_index, law_decimals_read_back,
    law_places_are_first_and_last, number_of, rfind_char, strip_suffix, trim, trim_end_char, trimmed,
    without_trailing,
};
use crate::types::opt_view;

verus! {

/// An utterance that was sent in.
#[derive(Debug)]
pub struct TurnInput {
    pub raw_text: String,
    pub start_time: Option<i64>,
    pub end_time: Option<i64>,
    pub topic_id: Option<String>,
    pub audio_base64: Option<String>,
    pub audio_mime: Option<String>,
    pub duration_ms: Option<i64>,
}

/// Why a request cannot be served.
#[derive(Clone, Copy, Debug, PartialEq, Eq, Structural)]
pub enum RequestError {
    RawTextRequired,
    TitleRequired,
}

impl RequestError {
    /// What the sender is told.
    pub fn message(self) -> (r: &'static str)
        ensures
            r@ == match self {
                RequestError::RawTextRequired => "raw_text required"@,
                RequestError::TitleRequired => "title required"@,
            },
    {
        match self {
            RequestError::RawTextRequired => "raw_text required",
            RequestError::TitleRequired => "title required",
        }
    }
}

/// The value of a decimal digit.
pub open spec fn decimal_digit(c: char) -> Option<int> {
    if 0x30 <= c as u32 <= 0x39 {
        Some(c as u32 - 0x30)
    } else {
        None
    }
}

/// Nothing but decimal digits, and at least one.
pub open spec fn is_decimal(s: Seq<char>) -> bool {
    s.len() > 0 && forall|i: int| 0 <= i < s.len() ==> decimal_digit(#[trigger] s[i]) is Some
}

/// The number that decimal digits write.
pub open spec fn decimal_value(s: Seq<char>) -> int
    decreases s.len(),
{
    if s.len() == 0 {
        0
    } else {
        decimal_value(s.drop_last()) * 10 + decimal_digit(s.last())->0
    }
}

/// The whole number that a text writes, where it is one and fits sixty-four bits.
pub open spec fn whole_number(s: Seq<char>) -> Option<i64> {
    if s.len() > 0 && s[0] == '-' {
        if is_decimal(s.skip(1)) && -decimal_value(s.skip(1)) >= i64::MIN {
            Some((-decimal_value(s.skip(1))) as i64)
        } else {
            None
        }
    } else if is_decimal(s) && decimal_value(s) <= i64::MAX {
        Some(decimal_value(s) as i64)
    } else {
        None
    }
}

proof fn lemma_decimal_grows(s: Seq<char>, k: int)
    requires
        is_decimal(s),
        0 <= k <= s.len(),
    ensures
        0 <= decimal_value(s.take(k)) <= decimal_value(s),
    decreases s.len() - k,
{
    if k < s.len() {
        lemma_decimal_grows(s, k + 1);
        assert(s.take(k + 1).drop_last() =~= s.take(k));
        lemma_decimal_nonnegative(s.take(k));
    } else {
        assert(s.take(k) =~= s);
        lemma_decimal_nonnegative(s);
    }
}

proof fn lemma_decimal_nonnegative(s: Seq<char>)
    requires
        forall|i: int| 0 <= i < s.len() ==> decimal_digit(#[trigger] s[i]) is Some,
    ensures
        decimal_value(s) >= 0,
    decreases s.len(),
{
    if s.len() > 0 {
        lemma_decimal_nonnegative(s.drop_last());
        assert(decimal_digit(s[s.len() - 1]) is Some);
    }
}

/// The digits from `from` on as a number, where they are some and fit 64 bits.
fn digits_from(cs: &Vec<char>, from: usize) -> (r: Option<u64>)
    requires
        from <= cs@.len(),
    ensures
        match r {
            Some(v) => is_decimal(cs@.skip(from as int)) && decimal_value(cs@.skip(from as int))
                == v,
            None => !(is_decimal(cs@.skip(from as int)) && decimal_value(cs@.skip(from as int))
                <= u64::MAX),
        },
{
    let n: usize = cs.len();
    let ghost digits = cs@.skip(from as int);
    if from == n {
        return None;
    }
    let mut value: u64 = 0;
    let mut i: usize = from;
    proof {
        assert(digits.take(0) =~= Seq::empty());
    }
    while i < n
        invariant
            from <= i <= n,
            from < n,
            n == cs@.len(),
            digits == cs@.skip(from as int),
            forall|j: int| 0 <= j < i - from ==> decimal_digit(#[trigger] digits[j]) is Some,
            value == decimal_value(digits.take(i - from)),
        decreases n - i,
    {
        let p: u32 = cs[i] as u32;
        proof {
            assert(digits[i - from] == cs@[i as int]);
            assert(digits.take(i - from + 1).drop_last() =~= digits.take(i - from));
        }
        if !(0x30 <= p && p <= 0x39) {
            return None;
        }
        let d: u64 = (p - 0x30) as u64;
        if value > (u64::MAX - d) / 10 {
            proof {
                if is_decimal(digits) {
                    lemma_decimal_grows(digits, i - from + 1);
                }
            }
            return None;
        }
        value = value * 10 + d;
        i = i + 1;
    }
    proof {
        assert(digits.take(n - from) =~= digits);
    }
    Some(value)
}

/// The whole number that a text writes.
pub fn parse_whole(s: &str) -> (r: Option<i64>)
    ensures
        r == whole_number(s@),
{
    let cs = chars_of(s);
    if cs.len() > 0 && cs[0] == '-' {
        match digits_from(&cs, 1) {
            Some(v) => if v <= 9_223_372_036_854_775_808 {
                let w: i128 = -(v as i128);
                Some(w as i64)
            } else {
                None
            },
            None => None,
        }
    } else {
        proof {
            assert(cs@.skip(0) =~= cs@);
        }
        match digits_from(&cs, 0) {
            Some(v) => if v <= 9_223_372_036_854_775_807 {
                Some(v as i64)
            } else {
                None
            },
            None => None,
        }
    }
}

/// The whole number of a member, where it is one.
pub open spec fn whole_in(members: Option<Members>, name: Seq<char>) -> Option<i64> {
    match item_in(members, name) {
        Some(ItemView::Number(t)) => whole_number(t),
        _ => None,
    }
}

fn find_whole(members: &Option<Vec<(String, JsonItem)>>, name: &str) -> (r: Option<i64>)
    ensures
        r == whole_in(opt_members(*members), name@),
{
    match find_item(members, name) {
        Some(JsonItem::Number(t)) => parse_whole(t.as_str()),
        _ => None,
    }
}

fn owned_text(members: &Option<Vec<(String, JsonItem)>>, name: &str) -> (r: Option<String>)
    ensures
        opt_view(r) == text_in(opt_members(*members), name@),
{
    match find_text(members, name) {
        Some(t) => Some(t.to_owned()),
        None => None,
    }
}

/// The text of a member without white space around it; nothing where that leaves nothing.
pub open spec fn words_in(members: Option<Members>, name: Seq<char>) -> Option<Seq<char>> {
    match text_in(members, name) {
        Some(t) => if is_blank(t) {
            None
        } else {
            Some(trimmed(t))
        },
        None => None,
    }
}

fn find_words(members: &Option<Vec<(String, JsonItem)>>, name: &str) -> (r: Option<String>)
    ensures
        opt_view(r) == words_in(opt_members(*members), name@),
{
    match find_text(members, name) {
        Some(t) => if blank(t) {
            None
        } else {
            Some(trim(t).to_owned())
        },
        None => None,
    }
}

/// `t` is the utterance that the members describe.
pub open spec fn describes(members: Option<Members>, t: TurnInput) -> bool {
    &&& words_in(members, "raw_text"@) == Some(t.raw_text@)
    &&& t.start_time == whole_in(members, "start_time"@)
    &&& t.end_time == whole_in(members, "end_time"@)
    &&& opt_view(t.topic_id) == text_in(members, "topic_id"@)
    &&& opt_view(t.audio_base64) == text_in(members, "audio_base64"@)
    &&& opt_view(t.audio_mime) == text_in(members, "audio_mime"@)
    &&& t.duration_ms == whole_in(members, "duration_ms"@)
}

/// The utterance that the members of a request describe. It has to hold some text; everything
/// else may be missing or of another kind.
pub fn read_turn(members: &Option<Vec<(String, JsonItem)>>) -> (r: Result<TurnInput, RequestError>)
    ensures
        r is Ok == words_in(opt_members(*members), "raw_text"@) is Some,
        match r {
            Ok(t) => describes(opt_members(*members), t),
            Err(e) => e == RequestError::RawTextRequired,
        },
{
    match find_words(members, "raw_text") {
        Some(raw_text) => Ok(
            TurnInput {
                raw_text,
                start_time: find_whole(members, "start_time"),
                end_time: find_whole(members, "end_time"),
                topic_id: owned_text(members, "topic_id"),
                audio_base64: owned_text(members, "audio_base64"),
                audio_mime: owned_text(members, "audio_mime"),
                duration_ms: find_whole(members, "duration_ms"),
            },
        ),
        None => Err(RequestError::RawTextRequired),
    }
}

/// The utterance that the body of a request describes.
pub fn turn_request(body: &str) -> (r: Result<TurnInput, RequestError>)
    ensures
        r is Ok == words_in(json_members(body@), "raw_text"@) is Some,
        match r {
            Ok(t) => describes(json_members(body@), t),
            Err(e) => e == RequestError::RawTextRequired,
        },
{
    let members = parse_members(body);
    read_turn(&members)
}

/// An utterance that a developer put in: text and topic count, nothing else.
pub fn read_injected(members: &Option<Vec<(String, JsonItem)>>) -> (r: Result<
    TurnInput,
    RequestError,
>)
    ensures
        r is Ok == words_in(opt_members(*members), "raw_text"@) is Some,
        match r {
            Ok(t) => {
                &&& words_in(opt_members(*members), "raw_text"@) == Some(t.raw_text@)
                &&& opt_view(t.topic_id) == text_in(opt_members(*members), "topic_id"@)
                &&& t.start_time is None
                &&& t.end_time is None
                &&& t.audio_base64 is None
                &&& t.audio_mime is None
                &&& t.duration_ms is None
            },
            Err(e) => e == RequestError::RawTextRequired,
        },
{
    match find_words(members, "raw_text") {
        Some(raw_text) => Ok(
            TurnInput {
                raw_text,
                start_time: None,
                end_time: None,
                topic_id: owned_text(members, "topic_id"),
                audio_base64: None,
                audio_mime: None,
                duration_ms: None,
            },
        ),
        None => Err(RequestError::RawTextRequired),
    }
}

/// The utterance in the body of a developer's request.
pub fn injected_request(body: &str) -> (r: Result<TurnInput, RequestError>)
    ensures
        r is Ok == words_in(json_members(body@), "raw_text"@) is Some,
        match r {
            Ok(t) => {
                &&& words_in(json_members(body@), "raw_text"@) == Some(t.raw_text@)
                &&& opt_view(t.topic_id) == text_in(json_members(body@), "topic_id"@)
                &&& t.start_time is None
                &&& t.end_time is None
                &&& t.audio_base64 is None
                &&& t.audio_mime is None
                &&& t.duration_ms is None
            },
            Err(e) => e == RequestError::RawTextRequired,
        },
{
    let members = parse_members(body);
    read_injected(&members)
}

/// The words, or a default where there are none.
pub open spec fn words_or(words: Option<Seq<char>>, default: Seq<char>) -> Seq<char> {
    match words {
        Some(w) => w,
        None => default,
    }
}

/// The title of a new topic.
pub fn read_title(members: &Option<Vec<(String, JsonItem)>>) -> (r: String)
    ensures
        r@ == words_or(words_in(opt_members(*members), "title"@), "未命名话题"@),
{
    match find_words(members, "title") {
        Some(t) => t,
        None => "未命名话题".to_owned(),
    }
}

/// The title of a new topic in the body of a request.
pub fn topic_title(body: &str) -> (r: String)
    ensures
        r@ == words_or(words_in(json_members(body@), "title"@), "未命名话题"@),
{
    let members = parse_members(body);
    read_title(&members)
}

/// The brief of an article.
pub fn read_brief(members: &Option<Vec<(String, JsonItem)>>) -> (r: String)
    ensures
        r@ == words_or(
            words_in(opt_members(*members), "brief"@),
            "把本话题的口述素材整理成一篇结构化文章"@,
        ),
{
    match find_words(members, "brief") {
        Some(t) => t,
        None => "把本话题的口述素材整理成一篇结构化文章".to_owned(),
    }
}

/// The brief of an article in the body of a request.
pub fn article_brief(body: &str) -> (r: String)
    ensures
        r@ == words_or(
            words_in(json_members(body@), "brief"@),
            "把本话题的口述素材整理成一篇结构化文章"@,
        ),
{
    let members = parse_members(body);
    read_brief(&members)
}

/// The new title of a topic, as it was sent.
pub fn read_new_title(members: &Option<Vec<(String, JsonItem)>>) -> (r: Result<
    String,
    RequestError,
>)
    ensures
        match r {
            Ok(t) => text_in(opt_members(*members), "title"@) == Some(t@),
            Err(e) => text_in(opt_members(*members), "title"@) is None && e
                == RequestError::TitleRequired,
        },
{
    match owned_text(members, "title") {
        Some(t) => Ok(t),
        None => Err(RequestError::TitleRequired),
    }
}

/// The new title of a topic in the body of a request.
pub fn new_title(body: &str) -> (r: Result<String, RequestError>)
    ensures
        match r {
            Ok(t) => text_in(json_members(body@), "title"@) == Some(t@),
            Err(e) => text_in(json_members(body@), "title"@) is None && e
                == RequestError::TitleRequired,
        },
{
    let members = parse_members(body);
    read_new_title(&members)
}

/// A letter of the alphabet in lower case; any other character as it is.
pub open spec fn lower_char(c: char) -> char {
    if 0x41 <= c as u32 <= 0x5A {
        (c as u32 + 0x20) as char
    } else {
        c
    }
}

/// A text with the letters of the alphabet in lower case.
pub open spec fn lower(s: Seq<char>) -> Seq<char> {
    Seq::new(s.len(), |i: int| lower_char(s[i]))
}

fn same_letter(a: char, b: char) -> (r: bool)
    ensures
        r == (lower_char(a) == b),
{
    let p: u32 = a as u32;
    if 0x41 <= p && p <= 0x5A {
        b as u32 == p + 0x20
    } else {
        a == b
    }
}

/// Is `s` the text `t` but for the case of its letters?
pub fn same_lower(s: &str, t: &str) -> (r: bool)
    ensures
        r == (lower(s@) == t@),
{
    let a = chars_of(s);
    let b = chars_of(t);
    if a.len() != b.len() {
        proof {
            assert(lower(s@).len() != t@.len());
        }
        return false;
    }
    let mut i: usize = 0;
    while i < a.len()
        invariant
            0 <= i <= a.len(),
            a@ == s@,
            b@ == t@,
            a@.len() == b@.len(),
            forall|j: int| 0 <= j < i ==> lower_char(#[trigger] a@[j]) == b@[j],
        decreases a.len() - i,
    {
        if !same_letter(a[i], b[i]) {
            proof {
                assert(lower(s@)[i as int] != t@[i as int]);
            }
            return false;
        }
        i = i + 1;
    }
    proof {
        assert(lower(s@) =~= t@);
    }
    true
}

/// The extension of a recording of that type.
pub open spec fn extension_of(mime: Seq<char>) -> Seq<char> {
    let m = lower(mime);
    if m == "audio/webm"@ || m == "audio/webm;codecs=opus"@ {
        "webm"@
    } else if m == "audio/ogg"@ || m == "audio/ogg;codecs=opus"@ {
        "ogg"@
    } else if m == "audio/mp4"@ {
        "mp4"@
    } else if m == "audio/mpeg"@ {
        "mp3"@
    } else if m == "audio/wav"@ {
        "wav"@
    } else {
        "webm"@
    }
}

/// The extension of a recording of that type.
pub fn ext_for(mime: &str) -> (r: &'static str)
    ensures
        r@ == extension_of(mime@),
{
    if same_lower(mime, "audio/webm") || same_lower(mime, "audio/webm;codecs=opus") {
        "webm"
    } else if same_lower(mime, "audio/ogg") || same_lower(mime, "audio/ogg;codecs=opus") {
        "ogg"
    } else if same_lower(mime, "audio/mp4") {
        "mp4"
    } else if same_lower(mime, "audio/mpeg") {
        "mp3"
    } else if same_lower(mime, "audio/wav") {
        "wav"
    } else {
        "webm"
    }
}

/// Why a recording cannot be kept.
#[derive(Debug)]
pub enum AudioError {
    /// It is not base64.
    Encoding(base64::DecodeError),
}

/// The media type of a recording: the one given, or WebM where there is none.
pub fn recording_mime(given: Option<String>) -> (r: String)
    ensures
        r@ == words_or(opt_view(given), "audio/webm"@),
{
    match given {
        Some(m) => m,
        None => "audio/webm".to_owned(),
    }
}

/// Where a recording goes.
pub open spec fn audio_path(dir: Seq<char>, chunk_id: Seq<char>, mime: Seq<char>) -> Seq<char> {
    dir + "/"@ + chunk_id + "."@ + extension_of(mime)
}

/// A recording whose bytes are known, or were not to be had: where it goes and what is written
/// there.
pub fn place_audio(
    dir: &str,
    chunk_id: &str,
    mime: &str,
    decoded: Result<Vec<u8>, base64::DecodeError>,
) -> (r: Result<(String, Vec<u8>), AudioError>)
    ensures
        match decoded {
            Ok(bytes) => {
                &&& r matches Ok(f)
                &&& f.0@ == audio_path(dir@, chunk_id@, mime@)
                &&& f.1 == bytes
            },
            Err(e) => r == Err::<(String, Vec<u8>), AudioError>(AudioError::Encoding(e)),
        },
{
    match decoded {
        Ok(bytes) => {
            let mut path = dir.to_owned();
            path.append("/");
            path.append(chunk_id);
            path.append(".");
            path.append(ext_for(mime));
            Ok((path, bytes))
        },
        Err(e) => Err(AudioError::Encoding(e)),
    }
}

/// A recording that was sent in: where it goes and what is written there.
pub fn save_audio(dir: &str, chunk_id: &str, b64: &str, mime: &str) -> (r: Result<
    (String, Vec<u8>),
    AudioError,
>)
    ensures
        match base64_bytes(b64@) {
            Some(bytes) => {
                &&& r matches Ok(f)
                &&& f.0@ == audio_path(dir@, chunk_id@, mime@)
                &&& f.1@ == bytes
            },
            None => r is Err,
        },
{
    place_audio(dir, chunk_id, mime, decode_base64(b64))
}

/// The name without a note in brackets at its end.
pub open spec fn without_note(s: Seq<char>) -> Seq<char> {
    match last_index(s, '[') {
        Some(i) => if has_suffix(s, "]"@) {
            trimmed(s.take(i))
        } else {
            s
        },
        None => s,
    }
}

/// The name of a model as the service knows it.
pub open spec fn model_name(given: Option<Seq<char>>, default: Seq<char>) -> Seq<char> {
    match given {
        Some(g) => if without_note(trimmed(g)).len() == 0 {
            default
        } else {
            without_note(trimmed(g))
        },
        None => default,
    }
}

/// The name of a model as the service knows it: without white space around it and without a note
/// in brackets at its end; the default where nothing is left.
pub fn clean_model(given: Option<String>, default: &str) -> (r: String)
    ensures
        r@ == model_name(opt_view(given), default@),
{
    let raw = match given {
        Some(s) => s,
        None => {
            return default.to_owned();
        },
    };
    let s = trim(raw.as_str());
    let cs = chars_of(s);
    let cleaned: &str = match rfind_char(&cs, '[') {
        Some(i) => match strip_suffix(s, "]") {
            Some(_) => {
                proof {
                    assert(s@.subrange(0, i as int) =~= s@.take(i as int));
                }
                trim(s.substring_char(0, i))
            },
            None => s,
        },
        None => s,
    };
    if cleaned.is_empty() {
        default.to_owned()
    } else {
        cleaned.to_owned()
    }
}

/// The service that writes articles.
#[derive(Clone, Debug)]
pub struct LlmConfig {
    pub base_url: String,
    pub api_key: String,
    pub pro_model: String,
}

/// The first of two that is there.
pub open spec fn first_of(a: Option<String>, b: Option<String>) -> Option<String> {
    if a is Some {
        a
    } else {
        b
    }
}

fn either(a: Option<String>, b: Option<String>) -> (r: Option<String>)
    ensures
        r == first_of(a, b),
{
    match a {
        Some(x) => Some(x),
        None => b,
    }
}

impl LlmConfig {
    /// From what the environment holds; the first of two settings goes before the second.
    pub fn resolve(
        base_url: Option<String>,
        auth_token: Option<String>,
        api_key: Option<String>,
        pro_model: Option<String>,
        model: Option<String>,
    ) -> (r: Self)
        ensures
            r.base_url@ == without_trailing(
                words_or(opt_view(base_url), "https://api.deepseek.com/anthropic"@),
                '/',
            ),
            r.api_key@ == words_or(opt_view(first_of(auth_token, api_key)), Seq::empty()),
            r.pro_model@ == model_name(
                opt_view(first_of(pro_model, model)),
                "deepseek-v4-pro"@,
            ),
    {
        let base = match base_url {
            Some(u) => u,
            None => "https://api.deepseek.com/anthropic".to_owned(),
        };
        let key = match either(auth_token, api_key) {
            Some(k) => k,
            None => String::new(),
        };
        LlmConfig {
            base_url: trim_end_char(base.as_str(), '/').to_owned(),
            api_key: key,
            pro_model: clean_model(either(pro_model, model), "deepseek-v4-pro"),
        }
    }
}

/// Law: a model's name is never empty where the default is not, and a name that is clean already
/// stays as it is.
pub proof fn law_model_names(given: Option<Seq<char>>, default: Seq<char>)
    requires
        default.len() > 0,
    ensures
        model_name(given, default).len() > 0,
        given matches Some(g) ==> (trimmed(g) == g && g.len() > 0 && !has_suffix(g, "]"@)
            ==> model_name(given, default) == g),
{
}

proof fn lemma_same_number(s: Seq<char>)
    requires
        forall|i: int| 0 <= i < s.len() ==> '0' <= #[trigger] s[i] <= '9',
    ensures
        decimal_value(s) == number_of(s),
        s.len() > 0 ==> is_decimal(s),
    decreases s.len(),
{
    if s.len() > 0 {
        assert forall|i: int| 0 <= i < s.drop_last().len() implies '0' <= #[trigger] s.drop_last()[i]
            <= '9' by {
            assert(s.drop_last()[i] == s[i]);
        }
        lemma_same_number(s.drop_last());
        assert('0' <= s[s.len() - 1] <= '9');
    }
}

/// Law: a whole number reads back, with its sign; what is not one is not read.
pub proof fn law_whole_numbers_read_back(n: int)
    requires
        0 <= n <= i64::MAX,
    ensures
        whole_number(decimal(n as nat)) == Some(n as i64),
        whole_number(seq!['-'] + decimal(n as nat)) == Some((-n) as i64),
        whole_number(decimal(n as nat).push('.')) is None,
        whole_number(Seq::empty()) is None,
{
    let d = decimal(n as nat);
    law_decimals_read_back(n as nat);
    lemma_same_number(d);
    assert(d[0] != '-');
    let m = seq!['-'] + d;
    assert(m.skip(1) =~= d);
    let p = d.push('.');
    assert(p[0] == d[0]);
    assert(decimal_digit(p[p.len() - 1]) is None);
}

/// Law: a request is read from the members of its names: the text is taken trimmed and must say
/// something, times are whole numbers, and all other texts are taken as they are.
pub proof fn law_a_request_is_read_by_name(members: Members, t: TurnInput, i: int)
    requires
        describes(Some(members), t),
    ensures
        first_named(members, "raw_text"@, i) ==> (members[i].1 matches ItemView::Text(s) && !is_blank(
            s,
        ) && t.raw_text@ == trimmed(s)),
        first_named(members, "start_time"@, i) ==> t.start_time == (match members[i].1 {
            ItemView::Number(n) => whole_number(n),
            _ => None,
        }),
        first_named(members, "end_time"@, i) ==> t.end_time == (match members[i].1 {
            ItemView::Number(n) => whole_number(n),
            _ => None,
        }),
        first_named(members, "duration_ms"@, i) ==> t.duration_ms == (match members[i].1 {
            ItemView::Number(n) => whole_number(n),
            _ => None,
        }),
        first_named(members, "topic_id"@, i) ==> opt_view(t.topic_id) == (match members[i].1 {
            ItemView::Text(s) => Some(s),
            _ => None,
        }),
        first_named(members, "audio_base64"@, i) ==> opt_view(t.audio_base64) == (
        match members[i].1 {
            ItemView::Text(s) => Some(s),
            _ => None,
        }),
        first_named(members, "audio_mime"@, i) ==> opt_view(t.audio_mime) == (match members[i].1 {
            ItemView::Text(s) => Some(s),
            _ => None,
        }),
{
    law_members_are_found_by_name(members, "raw_text"@, i);
    law_members_are_found_by_name(members, "start_time"@, i);
    law_members_are_found_by_name(members, "end_time"@, i);
    law_members_are_found_by_name(members, "duration_ms"@, i);
    law_members_are_found_by_name(members, "topic_id"@, i);
    law_members_are_found_by_name(members, "audio_base64"@, i);
    law_members_are_found_by_name(members, "audio_mime"@, i);
}

/// Law: words stand trimmed where there are any, and the default where there are none.
pub proof fn law_words_or_the_default(members: Members, name: Seq<char>, default: Seq<char>, i: int)
    ensures
        first_named(members, name, i) ==> (members[i].1 matches ItemView::Text(s) ==> (!is_blank(s)
            ==> words_or(words_in(Some(members), name), default) == trimmed(s))),
        first_named(members, name, i) ==> (members[i].1 matches ItemView::Text(s) ==> (is_blank(s)
            ==> words_or(words_in(Some(members), name), default) == default)),
        first_named(members, name, i) && !(members[i].1 is Text) ==> words_or(
            words_in(Some(members), name),
            default,
        ) == default,
        words_or(words_in(None, name), default) == default,
{
    law_members_are_found_by_name(members, name, i);
}

/// Law: letters of either case are the same letter: the small form of a text has no capital, keeps
/// its length and every other character, and is its own small form.
pub proof fn law_small_letters(s: Seq<char>, i: int)
    requires
        0 <= i < s.len(),
    ensures
        lower(s).len() == s.len(),
        'A' <= s[i] <= 'Z' ==> lower(s)[i] as int == s[i] as int + 32,
        !('A' <= s[i] <= 'Z') ==> lower(s)[i] == s[i],
        lower(lower(s)) == lower(s),
{
    assert forall|k: int| 0 <= k < s.len() implies lower(lower(s))[k] == lower(s)[k] by {
        lemma_lower_once(s[k]);
    }
    assert(lower(lower(s)) =~= lower(s));
    lemma_lower_once(s[i]);
}

proof fn lemma_lower_once(c: char)
    ensures
        lower_char(lower_char(c)) == lower_char(c),
        'A' <= c <= 'Z' ==> lower_char(c) as int == c as int + 32,
        !('A' <= c <= 'Z') ==> lower_char(c) == c,
{
}

/// Law: a recording's file is named after its chunk, with the ending of its kind, in whatever case
/// the kind is written.
pub proof fn law_a_recording_has_the_ending_of_its_kind(
    dir: Seq<char>,
    chunk_id: Seq<char>,
    mime: Seq<char>,
)
    ensures
        audio_path(dir, chunk_id, mime) == dir + "/"@ + chunk_id + "."@ + extension_of(mime),
        lower(mime) == "audio/mp4"@ ==> extension_of(mime) == "mp4"@,
        lower(mime) == "audio/mpeg"@ ==> extension_of(mime) == "mp3"@,
        lower(mime) == "audio/wav"@ ==> extension_of(mime) == "wav"@,
        lower(mime) == "audio/ogg"@ ==> extension_of(mime) == "ogg"@,
        lower(mime) == "audio/ogg;codecs=opus"@ ==> extension_of(mime) == "ogg"@,
        lower(mime) == "audio/webm"@ ==> extension_of(mime) == "webm"@,
        lower(mime) == "audio/webm;codecs=opus"@ ==> extension_of(mime) == "webm"@,
        extension_of(lower(mime)) == extension_of(mime),
        lower(mime) != "audio/mp4"@ && lower(mime) != "audio/mpeg"@ && lower(mime) != "audio/wav"@
            && lower(mime) != "audio/ogg"@ && lower(mime) != "audio/ogg;codecs=opus"@
            ==> extension_of(mime) == "webm"@,
{
    reveal_strlit("audio/webm");
    reveal_strlit("audio/webm;codecs=opus");
    reveal_strlit("audio/ogg");
    reveal_strlit("audio/ogg;codecs=opus");
    reveal_strlit("audio/mp4");
    reveal_strlit("audio/mpeg");
    reveal_strlit("audio/wav");
    assert("audio/ogg"@[6] == 'o' && "audio/mp4"@[6] == 'm' && "audio/wav"@[6] == 'w');
    assert("audio/webm"@[6] == 'w' && "audio/mpeg"@[6] == 'm');
    if mime.len() > 0 {
        law_small_letters(mime, 0);
    } else {
        assert(lower(mime) =~= mime);
    }
}

/// Law: a note in brackets behind a model's name is taken off; the name before it stays.
pub proof fn law_notes_are_taken_off(name: Seq<char>, note: Seq<char>, default: Seq<char>)
    requires
        trimmed(name + seq!['['] + note + seq![']']) == name + seq!['['] + note + seq![']'],
        !note.contains('['),
    ensures
        ({
            let given = name + seq!['['] + note + seq![']'];
            model_name(Some(given), default) == (if trimmed(name).len() == 0 {
                default
            } else {
                trimmed(name)
            })
        }),
        model_name(None, default) == default,
{
    reveal_strlit("]");
    let g = name + seq!['['] + note + seq![']'];
    let n = name.len() as int;
    assert(g[n] == '[');
    assert forall|j: int| n < j < g.len() implies g[j] != '[' by {
        if j < g.len() - 1 {
            assert(g[j] == note[j - n - 1]);
            assert(note.contains(note[j - n - 1]));
        }
    }
    assert(last_at(g, '[', n));
    law_places_are_first_and_last(g, '[');
    let k = last_index(g, '[')->0;
    assert(last_at(g, '[', k));
    assert(k == n);
    assert(g.take(n) =~= name);
    assert(g.skip(g.len() - 1) =~= "]"@);
}

/// Law: of two settings the first counts, where it is there.
pub proof fn law_the_first_setting_counts(a: Option<String>, b: Option<String>)
    ensures
        a is Some ==> first_of(a, b) == a,
        a is None ==> first_of(a, b) == b,
{
}

/// Law: a turn is taken in exactly if it says something; what it says is taken trimmed.
pub proof fn law_a_turn_must_say_something(
    members: Vec<(String, JsonItem)>,
    i: int,
    t: Seq<char>,
    r: Result<TurnInput, RequestError>,
    injected: Result<TurnInput, RequestError>,
)
    requires
        call_ensures(read_turn, (&Some(members),), r),
        call_ensures(read_injected, (&Some(members),), injected),
        first_named(member_views(members@), "raw_text"@, i),
        members@[i].1@ == ItemView::Text(t),
    ensures
        r is Ok <==> !is_blank(t),
        injected is Ok <==> !is_blank(t),
        r matches Ok(x) ==> x.raw_text@ == trimmed(t),
        injected matches Ok(x) ==> x.raw_text@ == trimmed(t) && x.audio_base64 is None && x.start_time
            is None && x.end_time is None,
        r matches Err(e) ==> e == RequestError::RawTextRequired,
{
    law_members_are_found_by_name(member_views(members@), "raw_text"@, i);
}

/// Law: audio that can be decoded is placed, byte for byte, under its chunk's name with the ending
/// of its kind; what cannot be decoded is not placed.
pub proof fn law_audio_is_placed_byte_for_byte(
    dir: &str,
    chunk_id: &str,
    mime: &str,
    decoded: Result<Vec<u8>, base64::DecodeError>,
    r: Result<(String, Vec<u8>), AudioError>,
)
    requires
        call_ensures(place_audio, (dir, chunk_id, mime, decoded), r),
    ensures
        r is Ok <==> decoded is Ok,
        decoded matches Ok(bytes) ==> (r matches Ok(f) && f.1@ == bytes@ && f.0@ == dir@ + "/"@
            + chunk_id@ + "."@ + extension_of(mime@)),
{
}

/// Law: of the settings the token goes before the key and the model of its own before the general
/// one; slashes at the end of the address do not count.
pub proof fn law_settings_are_taken_in_their_order(
    base_url: Option<String>,
    auth_token: Option<String>,
    api_key: Option<String>,
    pro_model: Option<String>,
    model: Option<String>,
    r: LlmConfig,
)
    requires
        call_ensures(LlmConfig::resolve, (base_url, auth_token, api_key, pro_model, model), r),
    ensures
        auth_token matches Some(t) ==> r.api_key@ == t@,
        auth_token is None ==> (api_key matches Some(k) ==> r.api_key@ == k@),
        auth_token is None && api_key is None ==> r.api_key@.len() == 0,
        pro_model matches Some(m) ==> r.pro_model@ == model_name(Some(m@), "deepseek-v4-pro"@),
        pro_model is None ==> (model matches Some(m) ==> r.pro_model@ == model_name(
            Some(m@),
            "deepseek-v4-pro"@,
        )),
        pro_model is None && model is None ==> r.pro_model@ == "deepseek-v4-pro"@,
        base_url matches Some(u) ==> r.base_url@ == without_trailing(u@, '/'),
{
}

/// Law: whole numbers are read as far as 64 bits hold them, on either side, and no further.
pub proof fn law_whole_numbers_are_bounded(n: int)
    requires
        n >= 0,
    ensures
        n > i64::MAX ==> whole_number(decimal(n as nat)) is None,
        n == i64::MAX + 1 ==> whole_number(seq!['-'] + decimal(n as nat)) == Some(i64::MIN),
        n > i64::MAX + 1 ==> whole_number(seq!['-'] + decimal(n as nat)) is None,
{
    let d = decimal(n as nat);
    law_decimals_read_back(n as nat);
    lemma_same_number(d);
    assert(d[0] != '-');
    let m = seq!['-'] + d;
    assert(m.skip(1) =~= d);
}

} // verus!
