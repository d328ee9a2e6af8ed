//! WAV files: 16-bit PCM, little endian. Writing one channel, reading one or two.

use vstd::prelude::*;

verus! {

/// The two bytes of `n`, low byte first.
pub open spec fn le2(n: int) -> Seq<u8> {
    seq![(n % 256) as u8, (n / 256 % 256) as u8]
}

/// The four bytes of `n`, low byte first.
pub open spec fn le4(n: int) -> Seq<u8> {
    seq![
        (n % 256) as u8,
        (n / 256 % 256) as u8,
        (n / 65536 % 256) as u8,
        (n / 16777216 % 256) as u8,
    ]
}

/// A sample as an unsigned number of sixteen bits.
pub open spec fn unsigned(s: i16) -> int {
    if s < 0 {
        s + 65536
    } else {
        s as int
    }
}

/// The bytes of the samples.
pub open spec fn sample_bytes(pcm: Seq<i16>) -> Seq<u8>
    decreases pcm.len(),
{
    if pcm.len() == 0 {
        Seq::empty()
    } else {
        sample_bytes(pcm.drop_last()) + le2(unsigned(pcm.last()))
    }
}

/// The 44 bytes before the samples.
#[verifier::opaque]
pub open spec fn header(samples: int, sr: int) -> Seq<u8> {
    seq![0x52u8, 0x49, 0x46, 0x46] + le4(36 + samples * 2) + seq![0x57u8, 0x41, 0x56, 0x45] + seq![
        0x66u8,
        0x6d,
        0x74,
        0x20,
    ] + le4(16) + le2(1) + le2(1) + le4(sr) + le4(sr * 2) + le2(2) + le2(16) + seq![
        0x64u8,
        0x61,
        0x74,
        0x61,
    ] + le4(samples * 2)
}

/// A mono WAV file.
pub open spec fn wav_file(pcm: Seq<i16>, sr: int) -> Seq<u8> {
    header(pcm.len() as int, sr) + sample_bytes(pcm)
}

fn push2(w: &mut Vec<u8>, n: u16)
    ensures
        final(w)@ == old(w)@ + le2(n as int),
{
    w.push((n % 256) as u8);
    w.push((n / 256) as u8);
    proof {
        assert(w@ =~= old(w)@ + le2(n as int));
    }
}

fn push4(w: &mut Vec<u8>, n: u32)
    ensures
        final(w)@ == old(w)@ + le4(n as int),
{
    w.push((n % 256) as u8);
    w.push((n / 256 % 256) as u8);
    w.push((n / 65536 % 256) as u8);
    w.push((n / 16777216 % 256) as u8);
    proof {
        assert(w@ =~= old(w)@ + le4(n as int));
    }
}

fn push_tag(w: &mut Vec<u8>, a: u8, b: u8, c: u8, d: u8)
    ensures
        final(w)@ == old(w)@ + seq![a, b, c, d],
{
    w.push(a);
    w.push(b);
    w.push(c);
    w.push(d);
    proof {
        assert(w@ =~= old(w)@ + seq![a, b, c, d]);
    }
}

/// Can the sizes of the file be written in its header?
pub open spec fn fits_header(samples: int, sr: int) -> bool {
    36 + samples * 2 <= u32::MAX && sr * 2 <= u32::MAX
}

/// Writes samples as a mono WAV file in memory.
pub fn pcm_to_wav(pcm: &[i16], sr: u32) -> (w: Vec<u8>)
    requires
        fits_header(pcm@.len() as int, sr as int),
    ensures
        w@ == wav_file(pcm@, sr as int),
        w@.len() == 44 + 2 * pcm@.len(),
{
    let n: usize = pcm.len();
    let data_len: u32 = (n as u32) * 2;
    let mut w: Vec<u8> = Vec::new();
    push_tag(&mut w, 0x52, 0x49, 0x46, 0x46);
    push4(&mut w, 36 + data_len);
    push_tag(&mut w, 0x57, 0x41, 0x56, 0x45);
    push_tag(&mut w, 0x66, 0x6d, 0x74, 0x20);
    push4(&mut w, 16);
    push2(&mut w, 1);
    push2(&mut w, 1);
    push4(&mut w, sr);
    push4(&mut w, sr * 2);
    push2(&mut w, 2);
    push2(&mut w, 16);
    push_tag(&mut w, 0x64, 0x61, 0x74, 0x61);
    push4(&mut w, data_len);
    proof {
        reveal(header);
        assert(w@ =~= header(pcm@.len() as int, sr as int));
        assert(w@.len() == 44);
    }
    let mut i: usize = 0;
    while i < n
        invariant
            0 <= i <= n,
            n == pcm@.len(),
            w@ == header(pcm@.len() as int, sr as int) + sample_bytes(pcm@.take(i as int)),
            w@.len() == 44 + 2 * i,
        decreases n - i,
    {
        let s: i16 = pcm[i];
        let u: u16 = if s < 0 {
            ((s as i32) + 65536) as u16
        } else {
            s as u16
        };
        push2(&mut w, u);
        i = i + 1;
        proof {
            assert(pcm@.take(i as int).drop_last() =~= pcm@.take(i - 1));
            assert(w@ =~= header(pcm@.len() as int, sr as int) + sample_bytes(pcm@.take(i as int)));
        }
    }
    proof {
        assert(pcm@.take(n as int) =~= pcm@);
    }
    w
}

/// Do the four bytes of `tag` stand at `i`?
pub open spec fn tag_at(b: Seq<u8>, tag: Seq<u8>, i: int) -> bool {
    &&& 0 <= i
    &&& i + 4 <= b.len()
    &&& b[i] == tag[0]
    &&& b[i + 1] == tag[1]
    &&& b[i + 2] == tag[2]
    &&& b[i + 3] == tag[3]
}

/// `tag` first stands at `i`.
pub open spec fn first_tag_at(b: Seq<u8>, tag: Seq<u8>, i: int) -> bool {
    &&& tag_at(b, tag, i)
    &&& forall|j: int| 0 <= j < i ==> !#[trigger] tag_at(b, tag, j)
}

/// Where the body of the chunk `tag` begins: eight bytes after the tag's first place, or at
/// `default` where it does not occur.
pub open spec fn chunk_body(b: Seq<u8>, tag: Seq<u8>, default: int) -> int {
    if exists|i: int| first_tag_at(b, tag, i) {
        (choose|i: int| first_tag_at(b, tag, i)) + 8
    } else {
        default
    }
}

fn find_chunk(b: &Vec<u8>, t0: u8, t1: u8, t2: u8, t3: u8, default: usize) -> (r: usize)
    requires
        b@.len() + 8 <= usize::MAX,
    ensures
        r == chunk_body(b@, seq![t0, t1, t2, t3], default as int),
{
    let ghost tag = seq![t0, t1, t2, t3];
    let mut i: usize = 0;
    while i + 4 <= b.len()
        invariant
            b@.len() + 8 <= usize::MAX,
            i <= b.len(),
            tag == seq![t0, t1, t2, t3],
            forall|j: int| 0 <= j < i ==> !#[trigger] tag_at(b@, tag, j),
        decreases b.len() - i,
    {
        if b[i] == t0 && b[i + 1] == t1 && b[i + 2] == t2 && b[i + 3] == t3 {
            proof {
                assert(tag_at(b@, tag, i as int));
                assert(first_tag_at(b@, tag, i as int));
                let f = choose|k: int| first_tag_at(b@, tag, k);
                assert(first_tag_at(b@, tag, f));
                assert(f == i);
            }
            return i + 8;
        }
        i = i + 1;
    }
    proof {
        assert forall|j: int| !first_tag_at(b@, tag, j) by {
            if first_tag_at(b@, tag, j) {
                assert(tag_at(b@, tag, j));
                assert(j < i);
            }
        }
    }
    default
}

/// The number in two bytes.
pub open spec fn value2(b: Seq<u8>, i: int) -> int {
    b[i] + 256 * b[i + 1]
}

/// The number in four bytes.
pub open spec fn value4(b: Seq<u8>, i: int) -> int {
    b[i] + 256 * b[i + 1] + 65536 * b[i + 2] + 16777216 * b[i + 3]
}

/// A number of sixteen bits as a sample.
pub open spec fn signed(u: int) -> int {
    if u >= 32768 {
        u - 65536
    } else {
        u
    }
}

/// The samples in the bytes from `from` on; a last odd byte is left out.
pub open spec fn samples_from(b: Seq<u8>, from: int) -> Seq<i16> {
    Seq::new(((b.len() - from) / 2) as nat, |i: int| signed(value2(b, from + 2 * i)) as i16)
}

/// The mean of two samples, towards zero.
pub open spec fn mean(a: i16, b: i16) -> int {
    let s = a + b;
    if s >= 0 {
        s / 2
    } else {
        -((-s) / 2)
    }
}

/// One channel from two.
pub open spec fn downmixed(pcm: Seq<i16>) -> Seq<i16> {
    Seq::new((pcm.len() / 2) as nat, |i: int| mean(pcm[2 * i], pcm[2 * i + 1]) as i16)
}

/// The tag of the format chunk.
pub open spec fn fmt_tag() -> Seq<u8> {
    seq![0x66u8, 0x6d, 0x74, 0x20]
}

/// The tag of the data chunk.
pub open spec fn data_tag() -> Seq<u8> {
    seq![0x64u8, 0x61, 0x74, 0x61]
}

/// Is the file long enough to hold its format, and its data chunk not beyond its end?
pub open spec fn readable(b: Seq<u8>) -> bool {
    &&& b.len() + 8 <= usize::MAX
    &&& chunk_body(b, fmt_tag(), 12) + 8 <= b.len()
    &&& chunk_body(b, data_tag(), 44) <= b.len()
}

/// The samples and the sample rate in a WAV file. Two channels are mixed into one.
pub open spec fn wav_content(b: Seq<u8>) -> (Seq<i16>, int) {
    let fmt = chunk_body(b, fmt_tag(), 12);
    let pcm = samples_from(b, chunk_body(b, data_tag(), 44));
    (
        if value2(b, fmt + 2) == 2 {
            downmixed(pcm)
        } else {
            pcm
        },
        value4(b, fmt + 4),
    )
}

/// Reads the samples and the sample rate of a WAV file; `None` where the file is cut off before
/// its format or its data.
pub fn parse_wav(b: &Vec<u8>) -> (r: Option<(Vec<i16>, u32)>)
    requires
        b@.len() + 8 <= usize::MAX,
    ensures
        r is Some == readable(b@),
        r matches Some(p) ==> p.0@ == wav_content(b@).0 && p.1 == wav_content(b@).1,
{
    let fmt: usize = find_chunk(b, 0x66, 0x6d, 0x74, 0x20, 12);
    let data: usize = find_chunk(b, 0x64, 0x61, 0x74, 0x61, 44);
    let n: usize = b.len();
    if n < 8 || fmt > n - 8 || data > n {
        return None;
    }
    let channels: u16 = (b[fmt + 2] as u16) + 256 * (b[fmt + 3] as u16);
    let sr: u32 = (b[fmt + 4] as u32) + 256 * (b[fmt + 5] as u32) + 65536 * (b[fmt + 6] as u32)
        + 16777216 * (b[fmt + 7] as u32);
    let mut pcm: Vec<i16> = Vec::new();
    let count: usize = (n - data) / 2;
    let mut i: usize = 0;
    while i < count
        invariant
            0 <= i <= count,
            n == b.len(),
            count == (n - data) / 2,
            data <= n,
            pcm@ == samples_from(b@, data as int).take(i as int),
        decreases count - i,
    {
        let u: u32 = (b[data + 2 * i] as u32) + 256 * (b[data + 2 * i + 1] as u32);
        let s: i16 = if u >= 32768 {
            ((u as i32) - 65536) as i16
        } else {
            u as i16
        };
        pcm.push(s);
        i = i + 1;
        proof {
            assert(pcm@ =~= samples_from(b@, data as int).take(i as int));
        }
    }
    proof {
        assert(samples_from(b@, data as int).take(count as int) =~= samples_from(b@, data as int));
    }
    if channels == 2 {
        let mixed = downmix(&pcm);
        Some((mixed, sr))
    } else {
        Some((pcm, sr))
    }
}

fn downmix(pcm: &Vec<i16>) -> (r: Vec<i16>)
    ensures
        r@ == downmixed(pcm@),
{
    let mut out: Vec<i16> = Vec::new();
    let count: usize = pcm.len() / 2;
    let mut i: usize = 0;
    while i < count
        invariant
            0 <= i <= count,
            count == pcm.len() / 2,
            out@ == downmixed(pcm@).take(i as int),
        decreases count - i,
    {
        let s: i32 = (pcm[2 * i] as i32) + (pcm[2 * i + 1] as i32);
        let m: i32 = if s >= 0 {
            s / 2
        } else {
            -((-s) / 2)
        };
        out.push(m as i16);
        i = i + 1;
        proof {
            assert(out@ =~= downmixed(pcm@).take(i as int));
        }
    }
    proof {
        assert(downmixed(pcm@).take(count as int) =~= downmixed(pcm@));
    }
    out
}

/// Whole microseconds of some samples, where there is a rate.
pub open spec fn lasting_us(samples: int, rate: int) -> Option<int> {
    if rate > 0 {
        Some(samples * 1_000_000 / rate)
    } else {
        None
    }
}

/// A number as a value, where there is one.
pub open spec fn opt_int(n: Option<u128>) -> Option<int> {
    match n {
        Some(k) => Some(k as int),
        None => None,
    }
}

/// Whole microseconds of some samples; `None` where there is no rate.
pub fn lasting(samples: usize, sample_rate: u32) -> (r: Option<u128>)
    ensures
        opt_int(r) == lasting_us(samples as int, sample_rate as int),
{
    if sample_rate > 0 {
        Some((samples as u128) * 1_000_000 / (sample_rate as u128))
    } else {
        None
    }
}

/// How long the audio of a mono WAV file of that many bytes lasts, in microseconds, rounded
/// down; `None` where there is no rate.
pub fn wav_duration_us(file_bytes: u64, sample_rate: u32) -> (r: Option<u128>)
    ensures
        opt_int(r) == file_audio_us(file_bytes as int, sample_rate as int),
{
    let data: u64 = if file_bytes > 44 {
        file_bytes - 44
    } else {
        0
    };
    if sample_rate > 0 {
        Some((data as u128) * 500_000 / (sample_rate as u128))
    } else {
        None
    }
}

/// Half a million microseconds for each byte behind the header, by the sample rate where there is
/// one.
pub open spec fn file_audio_us(file_bytes: int, sample_rate: int) -> Option<int> {
    if sample_rate > 0 {
        Some(
            (if file_bytes > 44 {
                file_bytes - 44
            } else {
                0
            }) * 500_000 / sample_rate,
        )
    } else {
        None
    }
}

proof fn lemma_sample_bytes(pcm: Seq<i16>, i: int)
    requires
        0 <= i < pcm.len(),
    ensures
        sample_bytes(pcm).len() == 2 * pcm.len(),
        sample_bytes(pcm)[2 * i] == le2(unsigned(pcm[i]))[0],
        sample_bytes(pcm)[2 * i + 1] == le2(unsigned(pcm[i]))[1],
    decreases pcm.len(),
{
    let t = pcm.drop_last();
    if t.len() > 0 {
        lemma_sample_bytes(
            t,
            if i < t.len() {
                i
            } else {
                0
            },
        );
    } else {
        assert(sample_bytes(t).len() == 0);
    }
    if i < t.len() {
        assert(t[i] == pcm[i]);
    }
}

proof fn lemma_header(samples: int, sr: int)
    ensures
        header(samples, sr).len() == 44,
        header(samples, sr).subrange(12, 16) == fmt_tag(),
        header(samples, sr).subrange(36, 40) == data_tag(),
        header(samples, sr).subrange(22, 24) == le2(1),
        header(samples, sr).subrange(24, 28) == le4(sr),
{
    reveal(header);
    let p1 = seq![0x52u8, 0x49, 0x46, 0x46] + le4(36 + samples * 2) + seq![0x57u8, 0x41, 0x56, 0x45];
    assert(p1.len() == 12);
    let p2 = p1 + seq![0x66u8, 0x6d, 0x74, 0x20];
    let p3 = p2 + le4(16) + le2(1);
    assert(p3.len() == 22);
    let p4 = p3 + le2(1);
    let p5 = p4 + le4(sr);
    let p6 = p5 + le4(sr * 2) + le2(2) + le2(16);
    assert(p6.len() == 36);
    let p7 = p6 + seq![0x64u8, 0x61, 0x74, 0x61];
    let p8 = p7 + le4(samples * 2);
    assert(header(samples, sr) == p8);
    assert(p8.subrange(12, 16) =~= fmt_tag());
    assert(p8.subrange(36, 40) =~= data_tag());
    assert(p8.subrange(22, 24) =~= le2(1));
    assert(p8.subrange(24, 28) =~= le4(sr));
}

proof fn lemma_first_tag(b: Seq<u8>, tag: Seq<u8>, at: int, default: int)
    requires
        tag_at(b, tag, at),
        forall|j: int| 0 <= j < at ==> !#[trigger] tag_at(b, tag, j),
    ensures
        chunk_body(b, tag, default) == at + 8,
{
    assert(first_tag_at(b, tag, at));
    let f = choose|i: int| first_tag_at(b, tag, i);
    assert(first_tag_at(b, tag, f));
    if f < at {
        assert(tag_at(b, tag, f));
    }
    if f > at {
        assert(!tag_at(b, tag, at));
    }
}

proof fn lemma_value4(b: Seq<u8>, i: int, n: int)
    requires
        0 <= i,
        i + 4 <= b.len(),
        0 <= n <= u32::MAX,
        b.subrange(i, i + 4) == le4(n),
    ensures
        value4(b, i) == n,
{
    let s = b.subrange(i, i + 4);
    assert(b[i] == s[0] && b[i + 1] == s[1] && b[i + 2] == s[2] && b[i + 3] == s[3]);
    assert(s[0] == n % 256);
    assert(s[1] == n / 256 % 256);
    assert(s[2] == n / 65536 % 256);
    assert(s[3] == n / 16777216 % 256);
}

/// Law: what was written is read back: a file of samples gives back exactly those samples and
/// that rate. Left out are the files whose sizes happen to spell a chunk's tag before its place.
pub proof fn law_wav_reads_back(pcm: Seq<i16>, sr: int)
    requires
        0 <= sr,
        fits_header(pcm.len() as int, sr),
        wav_file(pcm, sr).len() + 8 <= usize::MAX,
        forall|j: int| 0 <= j < 12 ==> !#[trigger] tag_at(wav_file(pcm, sr), fmt_tag(), j),
        forall|j: int| 0 <= j < 36 ==> !#[trigger] tag_at(wav_file(pcm, sr), data_tag(), j),
    ensures
        readable(wav_file(pcm, sr)),
        wav_content(wav_file(pcm, sr)) == (pcm, sr),
{
    let b = wav_file(pcm, sr);
    let h = header(pcm.len() as int, sr);
    let body = sample_bytes(pcm);
    lemma_header(pcm.len() as int, sr);
    if pcm.len() > 0 {
        lemma_sample_bytes(pcm, 0);
    } else {
        assert(body.len() == 0);
    }
    assert(b.subrange(12, 16) =~= h.subrange(12, 16));
    assert(b.subrange(36, 40) =~= h.subrange(36, 40));
    assert(b.subrange(22, 24) =~= h.subrange(22, 24));
    assert(b.subrange(24, 28) =~= h.subrange(24, 28));
    assert(tag_at(b, fmt_tag(), 12)) by {
        let t = b.subrange(12, 16);
        assert(b[12] == t[0] && b[13] == t[1] && b[14] == t[2] && b[15] == t[3]);
    }
    assert(tag_at(b, data_tag(), 36)) by {
        let t = b.subrange(36, 40);
        assert(b[36] == t[0] && b[37] == t[1] && b[38] == t[2] && b[39] == t[3]);
    }
    lemma_first_tag(b, fmt_tag(), 12, 12);
    lemma_first_tag(b, data_tag(), 36, 44);
    assert(value2(b, 22) == 1) by {
        let t = b.subrange(22, 24);
        assert(b[22] == t[0] && b[23] == t[1]);
    }
    lemma_value4(b, 24, sr);
    let got = samples_from(b, 44);
    assert(got.len() == pcm.len());
    assert forall|i: int| 0 <= i < pcm.len() implies got[i] == pcm[i] by {
        lemma_sample_bytes(pcm, i);
        assert(b[44 + 2 * i] == body[2 * i]);
        assert(b[44 + 2 * i + 1] == body[2 * i + 1]);
        let u = unsigned(pcm[i]);
        assert(0 <= u < 65536);
        assert(value2(b, 44 + 2 * i) == u);
        assert(signed(u) == pcm[i]);
    }
    assert(got =~= pcm);
}

/// Law: samples are written low byte first: the two bytes of each are its value, as 16 bits hold
/// it, in the order of the samples.
pub proof fn law_samples_are_little_endian(pcm: Seq<i16>, i: int)
    requires
        0 <= i < pcm.len(),
    ensures
        sample_bytes(pcm).len() == 2 * pcm.len(),
        sample_bytes(pcm)[2 * i] + 256 * sample_bytes(pcm)[2 * i + 1] == (if pcm[i] < 0 {
            pcm[i] + 65536
        } else {
            pcm[i] as int
        }),
{
    lemma_sample_bytes(pcm, i);
}

/// Law: samples are read low byte first, as many as there are pairs of bytes.
pub proof fn law_bytes_are_read_little_endian(b: Seq<u8>, from: int, i: int)
    requires
        0 <= from <= b.len(),
        0 <= i < samples_from(b, from).len(),
    ensures
        samples_from(b, from).len() == (b.len() - from) / 2,
        ({
            let n = b[from + 2 * i] + 256 * b[from + 2 * i + 1];
            samples_from(b, from)[i] == (if n < 32768 {
                n
            } else {
                n - 65536
            })
        }),
{
    assert(from + 2 * i + 1 < b.len());
    let lo = b[from + 2 * i];
    let hi = b[from + 2 * i + 1];
    assert(0 <= lo + 256 * hi < 65536);
}

/// Law: raw samples written and read again are the same samples.
pub proof fn law_raw_samples_read_back(pcm: Seq<i16>)
    ensures
        samples_from(sample_bytes(pcm), 0) == pcm,
{
    let b = sample_bytes(pcm);
    if pcm.len() > 0 {
        lemma_sample_bytes(pcm, 0);
    }
    let got = samples_from(b, 0);
    assert(got.len() == pcm.len());
    assert forall|i: int| 0 <= i < pcm.len() implies got[i] == pcm[i] by {
        law_samples_are_little_endian(pcm, i);
        law_bytes_are_read_little_endian(b, 0, i);
    }
    assert(got =~= pcm);
}

proof fn lemma_header_front(samples: int, sr: int)
    ensures
        header(samples, sr).subrange(0, 4) == seq![0x52u8, 0x49, 0x46, 0x46],
        header(samples, sr).subrange(4, 8) == le4(36 + samples * 2),
        header(samples, sr).subrange(8, 12) == seq![0x57u8, 0x41, 0x56, 0x45],
        header(samples, sr).subrange(16, 20) == le4(16),
        header(samples, sr).subrange(20, 22) == le2(1),
{
    reveal(header);
    let p1 = seq![0x52u8, 0x49, 0x46, 0x46];
    let p2 = p1 + le4(36 + samples * 2);
    let p3 = p2 + seq![0x57u8, 0x41, 0x56, 0x45];
    let p4 = p3 + seq![0x66u8, 0x6d, 0x74, 0x20];
    let p5 = p4 + le4(16);
    let p6 = p5 + le2(1);
    let p7 = p6 + le2(1) + le4(sr) + le4(sr * 2) + le2(2) + le2(16) + seq![
        0x64u8,
        0x61,
        0x74,
        0x61,
    ] + le4(samples * 2);
    assert(header(samples, sr) == p7);
    assert(p1.len() == 4 && p2.len() == 8 && p3.len() == 12 && p4.len() == 16 && p5.len() == 20);
    assert(p7.subrange(0, 4) =~= p1);
    assert(p7.subrange(4, 8) =~= le4(36 + samples * 2));
    assert(p7.subrange(8, 12) =~= seq![0x57u8, 0x41, 0x56, 0x45]);
    assert(p7.subrange(16, 20) =~= le4(16));
    assert(p7.subrange(20, 22) =~= le2(1));
}

proof fn lemma_header_back(samples: int, sr: int)
    ensures
        header(samples, sr).subrange(28, 32) == le4(sr * 2),
        header(samples, sr).subrange(32, 34) == le2(2),
        header(samples, sr).subrange(34, 36) == le2(16),
        header(samples, sr).subrange(40, 44) == le4(samples * 2),
{
    reveal(header);
    let p1 = seq![0x52u8, 0x49, 0x46, 0x46] + le4(36 + samples * 2) + seq![0x57u8, 0x41, 0x56, 0x45]
        + seq![0x66u8, 0x6d, 0x74, 0x20] + le4(16) + le2(1) + le2(1) + le4(sr);
    assert(p1.len() == 28);
    let p2 = p1 + le4(sr * 2);
    let p3 = p2 + le2(2);
    let p4 = p3 + le2(16);
    let p5 = p4 + seq![0x64u8, 0x61, 0x74, 0x61];
    let p6 = p5 + le4(samples * 2);
    assert(header(samples, sr) == p6);
    assert(p6.subrange(28, 32) =~= le4(sr * 2));
    assert(p6.subrange(32, 34) =~= le2(2));
    assert(p6.subrange(34, 36) =~= le2(16));
    assert(p6.subrange(40, 44) =~= le4(samples * 2));
}

/// Law: the header says what follows: its sizes, one channel of 16 bit samples, the rate, and two
/// bytes to each sample.
pub proof fn law_the_header_says_what_follows(samples: int, sr: int)
    requires
        samples >= 0,
        sr >= 0,
        fits_header(samples, sr),
    ensures
        ({
            let h = header(samples, sr);
            &&& h.len() == 44
            &&& h.subrange(0, 4) == seq![0x52u8, 0x49, 0x46, 0x46]
            &&& value4(h, 4) == 36 + 2 * samples
            &&& h.subrange(8, 12) == seq![0x57u8, 0x41, 0x56, 0x45]
            &&& h.subrange(12, 16) == seq![0x66u8, 0x6d, 0x74, 0x20]
            &&& value4(h, 16) == 16
            &&& value2(h, 20) == 1
            &&& value2(h, 22) == 1
            &&& value4(h, 24) == sr
            &&& value4(h, 28) == 2 * sr
            &&& value2(h, 32) == 2
            &&& value2(h, 34) == 16
            &&& h.subrange(36, 40) == seq![0x64u8, 0x61, 0x74, 0x61]
            &&& value4(h, 40) == 2 * samples
        }),
        forall|b: Seq<u8>, i: int|
            #![trigger value4(b, i)]
            value4(b, i) == b[i] + 256 * b[i + 1] + 65536 * b[i + 2] + 16777216 * b[i + 3],
        forall|b: Seq<u8>, i: int| #![trigger value2(b, i)] value2(b, i) == b[i] + 256 * b[i + 1],
{
    lemma_header(samples, sr);
    lemma_header_front(samples, sr);
    lemma_header_back(samples, sr);
    let h = header(samples, sr);
    lemma_value4(h, 4, 36 + samples * 2);
    lemma_value4(h, 16, 16);
    lemma_value4(h, 24, sr);
    lemma_value4(h, 28, sr * 2);
    lemma_value4(h, 40, samples * 2);
    assert(h.subrange(20, 22)[0] == h[20] && h.subrange(20, 22)[1] == h[21]);
    assert(h.subrange(22, 24)[0] == h[22] && h.subrange(22, 24)[1] == h[23]);
    assert(h.subrange(32, 34)[0] == h[32] && h.subrange(32, 34)[1] == h[33]);
    assert(h.subrange(34, 36)[0] == h[34] && h.subrange(34, 36)[1] == h[35]);
}

/// Law: two channels become one by their mean, toward zero where it is half a step off: never
/// more than half a step from it, and the same for both signs.
pub proof fn law_two_channels_become_their_mean(pcm: Seq<i16>, i: int)
    requires
        0 <= i < pcm.len() / 2,
    ensures
        downmixed(pcm).len() == pcm.len() / 2,
        ({
            let sum = pcm[2 * i] + pcm[2 * i + 1];
            let m = downmixed(pcm)[i];
            &&& sum >= 0 ==> 0 <= sum - 2 * m <= 1
            &&& sum <= 0 ==> -1 <= sum - 2 * m <= 0
        }),
        pcm[2 * i] == pcm[2 * i + 1] ==> downmixed(pcm)[i] == pcm[2 * i],
{
    let a = pcm[2 * i];
    let b = pcm[2 * i + 1];
    lemma_mean_fits(a, b);
    assert(downmixed(pcm)[i] == mean(a, b) as i16);
}

proof fn lemma_mean_fits(a: i16, b: i16)
    ensures
        i16::MIN <= mean(a, b) <= i16::MAX,
        a + b >= 0 ==> 0 <= a + b - 2 * mean(a, b) <= 1,
        a + b <= 0 ==> -1 <= a + b - 2 * mean(a, b) <= 0,
{
}

/// Law: samples last as long as their rate says: a rate's worth of them is a second, and time is
/// cut off at whole microseconds.
pub proof fn law_samples_last_as_the_rate_says(samples: int, rate: int, seconds: int)
    requires
        rate > 0,
        samples >= 0,
        seconds >= 0,
    ensures
        lasting_us(seconds * rate, rate) == Some(seconds * 1_000_000),
        lasting_us(samples, rate) matches Some(us) && us * rate <= samples * 1_000_000 < (us + 1) * rate,
        lasting_us(samples, 0) is None,
        file_audio_us(44 + 2 * samples, rate) == lasting_us(samples, rate),
        file_audio_us(samples, 0) is None,
{
    let n = samples * 1_000_000;
    let us = n / rate;
    assert(us * rate <= n < (us + 1) * rate) by (nonlinear_arith)
        requires
            us == n / rate,
            rate > 0,
    ;
    assert((seconds * rate) * 1_000_000 / rate == seconds * 1_000_000) by (nonlinear_arith)
        requires
            rate > 0,
    ;
    assert((2 * samples) * 500_000 == samples * 1_000_000);
}

/// Law: a number that is there is seen as it is.
pub proof fn law_numbers_are_seen_as_they_are(n: u128)
    ensures
        opt_int(Some(n)) == Some(n as int),
        opt_int(None) is None,
{
}

/// Law: a file that was written is read back: the same samples at the same rate. Left out are the
/// files whose sizes happen to spell a chunk's tag before its place.
pub proof fn law_a_written_file_is_read_back(
    pcm: &[i16],
    sr: u32,
    file: Vec<u8>,
    r: Option<(Vec<i16>, u32)>,
)
    requires
        fits_header(pcm@.len() as int, sr as int),
        call_ensures(pcm_to_wav, (pcm, sr), file),
        file@.len() + 8 <= usize::MAX,
        forall|j: int| 0 <= j < 12 ==> !#[trigger] tag_at(file@, fmt_tag(), j),
        forall|j: int| 0 <= j < 36 ==> !#[trigger] tag_at(file@, data_tag(), j),
        call_ensures(parse_wav, (&file,), r),
    ensures
        r matches Some(p) && p.0@ == pcm@ && p.1 == sr,
{
    law_wav_reads_back(pcm@, sr as int);
}

/// Law: a chunk's content begins behind its tag and its size, at the first place that tag stands,
/// wherever that is; where it stands nowhere, at the usual place.
pub proof fn law_a_chunk_is_found_by_its_tag(b: Seq<u8>, tag: Seq<u8>, i: int, default: int)
    requires
        tag.len() == 4,
    ensures
        0 <= i && i + 4 <= b.len() && b.subrange(i, i + 4) == tag && (forall|j: int|
            0 <= j < i ==> #[trigger] b.subrange(j, j + 4) != tag) ==> chunk_body(b, tag, default) == i
            + 8,
        (forall|j: int| 0 <= j && j + 4 <= b.len() ==> #[trigger] b.subrange(j, j + 4) != tag)
            ==> chunk_body(b, tag, default) == default,
{
    assert forall|j: int| #[trigger] tag_at(b, tag, j) implies 0 <= j && j + 4 <= b.len()
        && b.subrange(j, j + 4) == tag by {
        assert(b.subrange(j, j + 4) =~= tag);
    }
    if 0 <= i && i + 4 <= b.len() && b.subrange(i, i + 4) == tag && (forall|j: int|
        0 <= j < i ==> #[trigger] b.subrange(j, j + 4) != tag) {
        let s = b.subrange(i, i + 4);
        assert(s[0] == b[i] && s[1] == b[i + 1] && s[2] == b[i + 2] && s[3] == b[i + 3]);
        assert(tag_at(b, tag, i));
        assert forall|j: int| 0 <= j < i implies !#[trigger] tag_at(b, tag, j) by {
            assert(b.subrange(j, j + 4) != tag);
        }
        lemma_first_tag(b, tag, i, default);
    }
    if forall|j: int| 0 <= j && j + 4 <= b.len() ==> #[trigger] b.subrange(j, j + 4) != tag {
        assert forall|k: int| !#[trigger] first_tag_at(b, tag, k) by {
            if first_tag_at(b, tag, k) {
                assert(tag_at(b, tag, k));
                assert(b.subrange(k, k + 4) != tag);
            }
        }
    }
}

/// Law: two channels are mixed to one, and audio of any other number of channels is read as it
/// stands; the rate is the one in the file.
pub proof fn law_only_two_channels_are_mixed(b: Seq<u8>, r: Option<(Vec<i16>, u32)>, file: Vec<u8>)
    requires
        call_ensures(parse_wav, (&file,), r),
        b == file@,
        r is Some,
    ensures
        ({
            let fmt = chunk_body(b, seq![0x66u8, 0x6d, 0x74, 0x20], 12);
            let raw = samples_from(b, chunk_body(b, seq![0x64u8, 0x61, 0x74, 0x61], 44));
            let channels = b[fmt + 2] + 256 * b[fmt + 3];
            &&& channels == 2 ==> (r->0).0@ == downmixed(raw)
            &&& channels != 2 ==> (r->0).0@ == raw
            &&& (r->0).1 == b[fmt + 4] + 256 * b[fmt + 5] + 65536 * b[fmt + 6] + 16777216 * b[fmt + 7]
        }),
{
}

} // verus!
