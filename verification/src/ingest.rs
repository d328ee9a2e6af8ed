//! Audio from the network: the frame of the HTTP answer, the chunks in it, and the samples in
//! those. The connection itself is read by the caller, line by line and chunk by chunk.

use vstd::prelude::*;
use vstd::string::*;

use crate::pipeline::stream::all_samples;
use crate::text::{chars_of, is_blank, lemma_blank_iff_trimmed_empty, same, trim, trimmed};
use crate::vad::{SpeechEvent, SpeechEventKind};
use crate::wav::{
    law_raw_samples_read_back, law_samples_are_little_endian, sample_bytes, samples_from, signed,
    value2,
};

verus! {

/// Samples in a frame: 20 ms.
pub const FRAME_SAMPLES: usize = 320;

/// What is sent to have the audio.
pub open spec fn audio_request(addr: Seq<char>) -> Seq<char> {
    "GET /audio HTTP/1.1\r\nHost: "@ + addr + "\r\nConnection: close\r\n\r\n"@
}

/// What is sent to have the audio.
pub fn request_text(addr: &str) -> (r: String)
    ensures
        r@ == audio_request(addr@),
{
    let mut s = "GET /audio HTTP/1.1\r\nHost: ".to_owned();
    s.append(addr);
    s.append("\r\nConnection: close\r\n\r\n");
    s
}

/// What follows a line of the answer's head.
#[derive(Clone, Copy, Debug, PartialEq, Eq, Structural)]
pub enum HeadStep {
    /// The next line.
    More,
    /// The chunks.
    Body,
    /// Nothing: the answer broke off.
    BrokenOff,
}

/// A line of the head, or its end. An empty line ends the head.
pub fn head_line(line: Option<&str>) -> (r: HeadStep)
    ensures
        r == match line {
            None => HeadStep::BrokenOff,
            Some(l) => if l@ == "\r\n"@ || l@ == "\n"@ {
                HeadStep::Body
            } else {
                HeadStep::More
            },
        },
{
    match line {
        None => HeadStep::BrokenOff,
        Some(l) => if same(l, "\r\n") || same(l, "\n") {
            HeadStep::Body
        } else {
            HeadStep::More
        },
    }
}

/// The value of a hexadecimal digit.
pub open spec fn hex_digit(c: char) -> Option<int> {
    let p = c as u32;
    if 0x30 <= p <= 0x39 {
        Some(p - 0x30)
    } else if 0x61 <= p <= 0x66 {
        Some(p - 0x61 + 10)
    } else if 0x41 <= p <= 0x46 {
        Some(p - 0x41 + 10)
    } else {
        None
    }
}

/// Nothing but hexadecimal digits, and at least one.
pub open spec fn is_hex(s: Seq<char>) -> bool {
    s.len() > 0 && forall|i: int| 0 <= i < s.len() ==> hex_digit(#[trigger] s[i]) is Some
}

/// The number that hexadecimal digits write.
pub open spec fn hex_value(s: Seq<char>) -> int
    decreases s.len(),
{
    if s.len() == 0 {
        0
    } else {
        hex_value(s.drop_last()) * 16 + hex_digit(s.last())->0
    }
}

/// The digits of a number without its sign.
pub open spec fn unsigned_part(s: Seq<char>) -> Seq<char> {
    if s.len() > 0 && s[0] == '+' {
        s.skip(1)
    } else {
        s
    }
}

/// The size that a line gives: its hexadecimal number, or 0 where it holds none that fits.
pub open spec fn size_in(line: Seq<char>) -> int {
    let digits = unsigned_part(trimmed(line));
    if is_hex(digits) && hex_value(digits) <= usize::MAX {
        hex_value(digits)
    } else {
        0
    }
}

fn digit_of(c: char) -> (r: Option<u32>)
    ensures
        match r {
            Some(d) => hex_digit(c) == Some(d as int) && d < 16,
            None => hex_digit(c) is None,
        },
{
    let p: u32 = c as u32;
    if 0x30 <= p && p <= 0x39 {
        Some(p - 0x30)
    } else if 0x61 <= p && p <= 0x66 {
        Some(p - 0x61 + 10)
    } else if 0x41 <= p && p <= 0x46 {
        Some(p - 0x41 + 10)
    } else {
        None
    }
}

proof fn lemma_hex_grows(s: Seq<char>, k: int)
    requires
        is_hex(s),
        0 <= k <= s.len(),
    ensures
        0 <= hex_value(s.take(k)) <= hex_value(s),
    decreases s.len() - k, s.len(),
{
    if k < s.len() {
        lemma_hex_grows(s, k + 1);
        assert(s.take(k + 1).drop_last() =~= s.take(k));
        lemma_hex_nonnegative(s.take(k));
    } else {
        assert(s.take(k) =~= s);
        lemma_hex_nonnegative(s);
    }
}

proof fn lemma_hex_nonnegative(s: Seq<char>)
    requires
        forall|i: int| 0 <= i < s.len() ==> hex_digit(#[trigger] s[i]) is Some,
    ensures
        hex_value(s) >= 0,
    decreases s.len(),
{
    if s.len() > 0 {
        lemma_hex_nonnegative(s.drop_last());
        assert(hex_digit(s[s.len() - 1]) is Some);
    }
}

/// The size that a line gives.
pub fn chunk_size(line: &str) -> (r: usize)
    ensures
        r == size_in(line@),
{
    let cs = chars_of(trim(line));
    let n: usize = cs.len();
    let from: usize = if n > 0 && cs[0] == '+' {
        1
    } else {
        0
    };
    let ghost digits = unsigned_part(cs@);
    proof {
        assert(digits =~= cs@.skip(from as int));
    }
    if from == n {
        return 0;
    }
    let mut value: usize = 0;
    let mut i: usize = from;
    proof {
        assert(digits.take(0) =~= Seq::empty());
    }
    while i < n
        invariant
            from <= i <= n,
            n == cs@.len(),
            digits == cs@.skip(from as int),
            digits == unsigned_part(trimmed(line@)),
            digits.len() > 0,
            forall|j: int|
                0 <= j < i - from ==> hex_digit(#[trigger] digits[j]) is Some,
            value == hex_value(digits.take(i - from)),
        decreases n - i,
    {
        proof {
            assert(digits[i - from] == cs@[i as int]);
            assert(digits.take(i - from + 1).drop_last() =~= digits.take(i - from));
        }
        match digit_of(cs[i]) {
            Some(d) => {
                if value > (usize::MAX - d as usize) / 16 {
                    proof {
                        if is_hex(digits) {
                            lemma_hex_grows(digits, i - from + 1);
                        }
                    }
                    return 0;
                }
                value = value * 16 + d as usize;
            },
            None => {
                return 0;
            },
        }
        i = i + 1;
    }
    proof {
        assert(digits.take(n - from) =~= digits);
    }
    value
}

/// What follows a chunk's first line.
#[derive(Clone, Copy, Debug, PartialEq, Eq, Structural)]
pub enum ChunkStep {
    /// So many bytes of audio and an end of line.
    Read(usize),
    /// Nothing more.
    End,
}

/// A chunk's first line, or the end of the answer. A chunk of no size is the last.
pub fn chunk_line(line: Option<&str>) -> (r: ChunkStep)
    ensures
        r == match line {
            None => ChunkStep::End,
            Some(l) => if size_in(l@) == 0 {
                ChunkStep::End
            } else {
                ChunkStep::Read(size_in(l@) as usize)
            },
        },
{
    match line {
        None => ChunkStep::End,
        Some(l) => {
            let size: usize = chunk_size(l);
            if size == 0 {
                ChunkStep::End
            } else {
                ChunkStep::Read(size)
            }
        },
    }
}

/// Cuts the bytes into frames, wherever the chunks end.
pub struct FrameCutter {
    bytes: Vec<u8>,
    frame: Vec<i16>,
}

/// What is left over between two chunks.
pub struct CutterView {
    /// A byte without its other half.
    pub bytes: Seq<u8>,
    /// Samples that do not make a frame yet.
    pub samples: Seq<i16>,
}

impl CutterView {
    /// Less than a sample and less than a frame is left over.
    pub open spec fn wf(self) -> bool {
        self.bytes.len() < 2 && self.samples.len() < FRAME_SAMPLES
    }

    /// All samples with those of some more bytes.
    pub open spec fn samples_with(self, bytes: Seq<u8>) -> Seq<i16> {
        self.samples + samples_from(self.bytes + bytes, 0)
    }

    /// The byte that is left over after some more.
    pub open spec fn rest_with(self, bytes: Seq<u8>) -> Seq<u8> {
        let all = self.bytes + bytes;
        all.skip(all.len() as int / 2 * 2)
    }
}

impl View for FrameCutter {
    type V = CutterView;

    closed spec fn view(&self) -> CutterView {
        CutterView { bytes: self.bytes@, samples: self.frame@ }
    }
}

/// Every frame is full.
pub open spec fn full_frames(frames: Seq<Vec<i16>>) -> bool {
    forall|i: int| 0 <= i < frames.len() ==> (#[trigger] frames[i])@.len() == FRAME_SAMPLES
}

fn sample_of(lo: u8, hi: u8) -> (r: i16)
    ensures
        r == signed(lo + 256 * hi),
{
    let u: u32 = (lo as u32) + 256 * (hi as u32);
    if u >= 32768 {
        ((u as i32) - 65536) as i16
    } else {
        u as i16
    }
}

impl FrameCutter {
    /// Nothing left over.
    pub fn new() -> (r: Self)
        ensures
            r@.wf(),
            r@.bytes.len() == 0,
            r@.samples.len() == 0,
    {
        FrameCutter { bytes: Vec::new(), frame: Vec::new() }
    }

    /// Takes the bytes of a chunk and hands out the frames that are full now, in order.
    pub fn push(&mut self, bytes: &[u8]) -> (r: Vec<Vec<i16>>)
        requires
            old(self)@.wf(),
        ensures
            final(self)@.wf(),
            full_frames(r@),
            all_samples(r@) + final(self)@.samples == old(self)@.samples_with(bytes@),
            final(self)@.bytes == old(self)@.rest_with(bytes@),
    {
        let ghost before = self@;
        self.bytes.extend_from_slice(bytes);
        let ghost all = before.bytes + bytes@;
        proof {
            assert(self.bytes@ =~= all);
        }
        let n: usize = self.bytes.len();
        let pairs: usize = n / 2;
        let ghost fresh = samples_from(all, 0);
        let mut out: Vec<Vec<i16>> = Vec::new();
        let mut i: usize = 0;
        proof {
            assert(all_samples(out@) + self.frame@ =~= before.samples + fresh.take(0));
        }
        while i < pairs
            invariant
                0 <= i <= pairs,
                pairs == n / 2,
                n == all.len(),
                self.bytes@ == all,
                fresh == samples_from(all, 0),
                self.frame@.len() < FRAME_SAMPLES,
                full_frames(out@),
                all_samples(out@) + self.frame@ == before.samples + fresh.take(i as int),
            decreases pairs - i,
        {
            let s: i16 = sample_of(self.bytes[2 * i], self.bytes[2 * i + 1]);
            let ghost frame_before = self.frame@;
            let ghost out_before = out@;
            proof {
                assert(value2(all, 0 + 2 * (i as int)) == all[2 * i as int] + 256 * all[2 * i + 1]);
                assert(fresh[i as int] == s);
                assert(fresh.take(i + 1) =~= fresh.take(i as int).push(s));
            }
            self.frame.push(s);
            proof {
                assert(all_samples(out@) + self.frame@ =~= (all_samples(out@) + frame_before).push(s));
            }
            if self.frame.len() == FRAME_SAMPLES {
                let mut full: Vec<i16> = Vec::new();
                std::mem::swap(&mut full, &mut self.frame);
                let ghost whole = full@;
                out.push(full);
                proof {
                    assert(out@.drop_last() =~= out_before);
                    assert(all_samples(out@) + self.frame@ =~= all_samples(out_before) + whole);
                }
            }
            proof {
                assert(before.samples + fresh.take(i + 1) =~= (before.samples + fresh.take(
                    i as int,
                )).push(s));
            }
            i = i + 1;
        }
        let rest = self.bytes.split_off(pairs * 2);
        self.bytes = rest;
        proof {
            assert(fresh.take(pairs as int) =~= fresh);
            assert(self.bytes@ =~= all.skip(pairs * 2));
        }
        out
    }
}

/// Law: how the bytes are spread over chunks does not matter: the samples that come out of two
/// chunks are those of both in one, and the same is left over.
pub proof fn law_chunking_does_not_matter(v: CutterView, a: Seq<u8>, b: Seq<u8>, sent: Seq<i16>, left: Seq<i16>)
    requires
        sent + left == v.samples_with(a),
    ensures
        ({
            let w = CutterView { bytes: v.rest_with(a), samples: left };
            &&& sent + w.samples_with(b) == v.samples_with(a + b)
            &&& w.rest_with(b) == v.rest_with(a + b)
        }),
{
    let w = CutterView { bytes: v.rest_with(a), samples: left };
    let x = v.bytes + a;
    let y = v.bytes + (a + b);
    let k = x.len() as int / 2;
    assert(y =~= x + b);
    let s1 = samples_from(x, 0);
    let s2 = samples_from(w.bytes + b, 0);
    let s = samples_from(y, 0);
    assert(w.bytes + b =~= y.skip(2 * k));
    assert(s.len() == s1.len() + s2.len());
    assert forall|i: int| 0 <= i < s.len() implies s[i] == (s1 + s2)[i] by {
        if i < k {
            assert(value2(y, 0 + 2 * i) == value2(x, 0 + 2 * i));
        } else {
            let j = i - k;
            assert(value2(y, 0 + 2 * i) == value2(y.skip(2 * k), 0 + 2 * j));
        }
    }
    assert(s =~= s1 + s2);
    assert(sent + w.samples_with(b) =~= (sent + left) + s2);
    assert((v.samples + s1) + s2 =~= v.samples + (s1 + s2));
    assert(w.rest_with(b) =~= v.rest_with(a + b));
}

/// What is said in a report of the segmenter: the trimmed text of a finished utterance, where it
/// has any.
pub open spec fn said(ev: SpeechEvent) -> Option<Seq<char>> {
    match ev.text {
        Some(t) => if ev.kind == SpeechEventKind::Final && !is_blank(t@) {
            Some(trimmed(t@))
        } else {
            None
        },
        None => None,
    }
}

/// What is said in a report of the segmenter.
pub fn utterance(ev: &SpeechEvent) -> (r: Option<String>)
    ensures
        match r {
            Some(t) => said(*ev) == Some(t@),
            None => said(*ev) is None,
        },
{
    match &ev.text {
        Some(t) => {
            let words = trim(t.as_str());
            proof {
                lemma_blank_iff_trimmed_empty(t@);
            }
            if ev.kind == SpeechEventKind::Final && !words.is_empty() {
                Some(words.to_owned())
            } else {
                None
            }
        },
        None => None,
    }
}

/// Law: a size is written in hexadecimal, the most significant digit first: one more digit makes
/// sixteen times as much, and the digit.
pub proof fn law_sizes_are_hexadecimal(s: Seq<char>, c: char)
    ensures
        hex_value(Seq::empty()) == 0,
        '0' <= c <= '9' ==> hex_value(s.push(c)) == hex_value(s) * 16 + (c as int - '0' as int),
        'a' <= c <= 'f' ==> hex_value(s.push(c)) == hex_value(s) * 16 + 10 + (c as int - 'a' as int),
        'A' <= c <= 'F' ==> hex_value(s.push(c)) == hex_value(s) * 16 + 10 + (c as int - 'A' as int),
{
    assert(s.push(c).drop_last() =~= s);
}

/// Law: a line that is no size ends the audio, as does the size 0; white space around a size does
/// not matter.
pub proof fn law_no_size_ends_the_audio(line: Seq<char>)
    ensures
        trimmed(line).len() == 0 ==> size_in(line) == 0,
        size_in(trimmed(line)) == size_in(line),
        0 <= size_in(line) <= usize::MAX,
        ({
            let digits = trimmed(line);
            digits.len() > 0 && digits[0] != '+' && is_hex(digits) && hex_value(digits) <= usize::MAX
                ==> size_in(line) == hex_value(digits)
        }),
        (exists|i: int|
            1 <= i < trimmed(line).len() && hex_digit(#[trigger] trimmed(line)[i]) is None) ==> size_in(
            line,
        ) == 0,
{
    crate::text::law_trimming_once_is_enough(line);
    let t = trimmed(line);
    if is_hex(unsigned_part(t)) {
        lemma_hex_nonnegative(unsigned_part(t));
    }
    if exists|i: int| 1 <= i < t.len() && hex_digit(#[trigger] t[i]) is None {
        let i = choose|i: int| 1 <= i < t.len() && hex_digit(#[trigger] t[i]) is None;
        let digits = unsigned_part(t);
        if digits.len() < t.len() {
            assert(digits[i - 1] == t[i]);
        } else {
            assert(digits[i] == t[i]);
        }
    }
}

/// Law: samples sent as bytes, low byte first, arrive as the same samples, behind those that were
/// waiting.
pub proof fn law_samples_arrive_as_sent(v: CutterView, pcm: Seq<i16>)
    requires
        v.bytes.len() == 0,
    ensures
        v.samples_with(sample_bytes(pcm)) == v.samples + pcm,
        v.rest_with(sample_bytes(pcm)).len() == 0,
{
    let b = sample_bytes(pcm);
    assert(v.bytes + b =~= b);
    law_raw_samples_read_back(pcm);
    if pcm.len() > 0 {
        law_samples_are_little_endian(pcm, 0);
    }
}

/// Law: an utterance is what a final report says, trimmed, where it says something; no other
/// report is one.
pub proof fn law_only_final_reports_are_utterances(ev: SpeechEvent)
    ensures
        ev.kind != SpeechEventKind::Final ==> said(ev) is None,
        ev.text is None ==> said(ev) is None,
        ev.text matches Some(t) ==> (is_blank(t@) ==> said(ev) is None),
        ev.text matches Some(t) ==> (ev.kind == SpeechEventKind::Final && !is_blank(t@) ==> said(ev)
            == Some(trimmed(t@))),
{
}

/// Law: no sample is lost, doubled or moved on its way into frames: the frames that come out,
/// followed by what waits for the next, are the samples that waited, followed by the new ones.
pub proof fn law_frames_hold_every_sample(
    c: &mut FrameCutter,
    bytes: &[u8],
    pcm: Seq<i16>,
    r: Vec<Vec<i16>>,
)
    requires
        call_ensures(FrameCutter::push, (c, bytes), r),
        old(c)@.bytes.len() == 0,
        bytes@ == sample_bytes(pcm),
    ensures
        all_samples(r@) + final(c)@.samples == old(c)@.samples + pcm,
        forall|i: int| 0 <= i < r@.len() ==> (#[trigger] r@[i])@.len() == 320,
        final(c)@.samples.len() < 320,
        final(c)@.bytes.len() == 0,
{
    law_samples_arrive_as_sent(old(c)@, pcm);
}

/// Law: the head of an answer ends with an empty line, and an answer that breaks off before has no
/// audio; a chunk is read as long as its size says, and a size of none ends the audio.
pub proof fn law_lines_lead_on(
    line: &str,
    head: HeadStep,
    chunk: ChunkStep,
    no_head: HeadStep,
    no_chunk: ChunkStep,
)
    requires
        call_ensures(head_line, (Some(line),), head),
        call_ensures(chunk_line, (Some(line),), chunk),
        call_ensures(head_line, (None,), no_head),
        call_ensures(chunk_line, (None,), no_chunk),
    ensures
        head == HeadStep::Body <==> line@ == "\r\n"@ || line@ == "\n"@,
        head != HeadStep::Body ==> head == HeadStep::More,
        chunk is End <==> size_in(line@) == 0,
        chunk matches ChunkStep::Read(n) ==> n == size_in(line@),
        no_head == HeadStep::BrokenOff,
        no_chunk is End,
{
    law_no_size_ends_the_audio(line@);
}

/// Law: the audio is asked for at the address it is to come from.
pub proof fn law_the_audio_is_asked_for_at_its_address(addr: &str, r: String)
    requires
        call_ensures(request_text, (addr,), r),
    ensures
        exists|a: Seq<char>, b: Seq<char>|
            r@ == #[trigger] (a + ("Host: "@ + addr@ + "\r\n"@) + b),
        r@.take("GET /audio HTTP/1.1"@.len() as int) == "GET /audio HTTP/1.1"@,
        r@.skip(r@.len() - 4) == "\r\n\r\n"@,
{
    reveal_strlit("GET /audio HTTP/1.1\r\nHost: ");
    reveal_strlit("\r\nConnection: close\r\n\r\n");
    reveal_strlit("Host: ");
    reveal_strlit("\r\n");
    reveal_strlit("GET /audio HTTP/1.1");
    reveal_strlit("\r\n\r\n");
    let x = "GET /audio HTTP/1.1\r\nHost: "@;
    let y = "\r\nConnection: close\r\n\r\n"@;
    let a = x.take(x.len() - 6);
    let b = y.skip(2);
    assert(x =~= a + "Host: "@);
    assert(y =~= "\r\n"@ + b);
    assert(r@ =~= a + ("Host: "@ + addr@ + "\r\n"@) + b);
    assert(r@.take(19) =~= "GET /audio HTTP/1.1"@);
    assert(r@.skip(r@.len() - 4) =~= "\r\n\r\n"@);
}

} // verus!
