//! Audio clips, the archive, the turn log and the context window.

use std::collections::HashMap;
use std::sync::Arc;

use audio_aura::archive::{clip_rel_path, ArchiveConfig, AudioArchive, Overflow, Playback};
use audio_aura::audio_store::AudioStore;
use audio_aura::clock::{
    format_clock, format_day, local_time_days_ago, micros_of, millis_of, subsec_of, LocalTime,
    MAX_DAYS_BACK,
};
use audio_aura::context::ContextWindow;
use audio_aura::hub::{expired_dirs, FinalTurn, Storage, TurnLog};
use audio_aura::wav::{parse_wav, pcm_to_wav, wav_duration_us};

/// Files by path, standing for a disk.
type Disk = HashMap<String, Vec<u8>>;

fn cfg(dir: &str, cap: usize) -> ArchiveConfig {
    ArchiveConfig { dir: dir.to_string(), hot_capacity: cap, ..Default::default() }
}

fn pcm(marker: i16) -> Vec<i16> {
    vec![marker; 1600]
}

fn now() -> LocalTime {
    local_time_days_ago(0).now
}

/// Pushes a clip, writes out what overflows and returns the clip's path.
fn push(a: &mut AudioArchive, disk: &mut Disk, seq: u64, at_us: i64, pcm: Vec<i16>) -> String {
    let path = a.push(seq, at_us, pcm, now());
    while let Overflow::Write { seq, path, wav } = a.overflow() {
        disk.insert(path, wav);
        assert!(a.evict_written(seq));
    }
    path
}

fn flush(a: &mut AudioArchive, disk: &mut Disk) -> usize {
    let mut n = 0;
    for seq in a.pending_seqs() {
        let (path, wav) = a.clip_file(seq).expect("pending");
        disk.insert(path, wav);
        if a.mark_flushed(seq) {
            n += 1;
        }
    }
    n
}

fn replay(a: &AudioArchive, disk: &Disk, seq: u64) -> Option<Vec<u8>> {
    match a.wav(seq) {
        Playback::Bytes(b) => Some(b),
        Playback::File(p) => disk.get(&p).cloned(),
        Playback::Unknown => None,
    }
}

fn sizes(a: &AudioArchive, disk: &Disk) -> Vec<u64> {
    a.flushed_paths().iter().map(|p| disk.get(p).map_or(0, |b| b.len() as u64)).collect()
}

#[test]
fn date_based_naming() {
    let t = LocalTime { year: 2026, month: 7, day: 17, hour: 13, minute: 37, second: 12 };
    let (day, name) = clip_rel_path(t, 7);
    assert_eq!(day, "2026-07-17");
    assert_eq!(name, "133712_0007.wav");
}

#[test]
fn push_returns_dated_path_and_replays_hot() {
    let mut a = AudioArchive::new(cfg("/tmp/recordings", 5));
    let mut disk = Disk::new();
    let path = push(&mut a, &mut disk, 1, 500_000, pcm(7));
    assert!(path.starts_with("/tmp/recordings/"), "under the recordings root");
    let parts: Vec<&str> = path.split('/').collect();
    let day = parts[parts.len() - 2];
    assert_eq!(day.len(), 10, "YYYY-MM-DD day dir, got {day}");
    assert!(parts[parts.len() - 1].ends_with("_0001.wav"));
    let wav = replay(&a, &disk, 1).expect("hot replay");
    assert_eq!(&wav[..4], b"RIFF");
    assert!(replay(&a, &disk, 99).is_none(), "unknown seq");
}

#[test]
fn flush_then_replay_from_disk_after_eviction() {
    let mut a = AudioArchive::new(cfg("/tmp/flush", 2));
    let mut disk = Disk::new();
    let p1 = push(&mut a, &mut disk, 1, 100_000, pcm(1));
    push(&mut a, &mut disk, 2, 200_000, pcm(2));
    assert_eq!(flush(&mut a, &mut disk), 2);
    assert!(disk.contains_key(&p1), "flushed to the dated path");
    assert_eq!(a.pending(), 0);
    push(&mut a, &mut disk, 3, 300_000, pcm(3));
    assert!(matches!(a.wav(1), Playback::File(_)), "no longer in memory");
    let wav1 = replay(&a, &disk, 1).expect("evicted clip must replay from disk");
    assert_eq!(&wav1[..4], b"RIFF");
    assert_eq!(wav1.len(), 44 + 1600 * 2);
}

#[test]
fn overflow_flushes_unflushed_before_evicting() {
    let mut a = AudioArchive::new(cfg("/tmp/overflow", 1));
    let mut disk = Disk::new();
    let p1 = push(&mut a, &mut disk, 1, 100_000, pcm(1));
    push(&mut a, &mut disk, 2, 200_000, pcm(2));
    assert!(disk.contains_key(&p1), "unflushed clip written before eviction");
    assert!(replay(&a, &disk, 1).is_some(), "still replayable from disk");
}

#[test]
fn list_merges_hot_and_flushed() {
    let mut a = AudioArchive::new(cfg("/tmp/list", 1));
    let mut disk = Disk::new();
    push(&mut a, &mut disk, 1, 100_000, pcm(1));
    push(&mut a, &mut disk, 2, 200_000, pcm(2));
    let metas = a.list(&sizes(&a, &disk));
    assert_eq!(metas.iter().map(|m| m.seq).collect::<Vec<_>>(), vec![1, 2]);
    let m1 = &metas[0];
    assert!(!m1.hot && m1.path.ends_with("_0001.wav"));
    assert_eq!(m1.duration_us, Some(100_000), "duration from file size");
    let m2 = &metas[1];
    assert!(m2.hot && m2.at_us == 200_000);
}

#[test]
fn a_clip_that_was_not_written_stays() {
    let mut a = AudioArchive::new(cfg("/tmp/kept", 1));
    a.push(1, 0, pcm(1), now());
    a.push(2, 0, pcm(2), now());
    assert!(matches!(a.overflow(), Overflow::Write { seq: 1, .. }));
    // Writing failed: nothing was said about it, and the clip can still be played.
    assert!(matches!(a.wav(1), Playback::Bytes(_)));
    assert_eq!(a.pending_seqs(), vec![1, 2]);
    assert!(!a.evict_written(9), "no such clip");
    assert!(!a.mark_flushed(9), "no such clip");
    assert!(a.clip_file(9).is_none());
}

fn clip(n: usize) -> Arc<Vec<i16>> {
    Arc::new(vec![1i16; n])
}

#[test]
fn insert_returns_monotonic_ids_and_concat_joins_in_order() {
    let mut s = AudioStore::new(1_000_000);
    let a = s.insert(clip(10));
    let b = s.insert(clip(20));
    assert_eq!((a, b), (0, 1), "ids are monotonic from 0");
    let joined = s.concat(&[a, b]);
    assert_eq!(joined.len(), 30, "concat joins in the GIVEN id order");
}

#[test]
fn evict_drops_clips() {
    let mut s = AudioStore::new(1_000_000);
    let a = s.insert(clip(10));
    s.evict(&[a]);
    assert!(s.concat(&[a]).is_empty(), "evicted clip contributes nothing");
    s.evict(&[a]);
}

#[test]
fn cap_evicts_oldest_first() {
    let mut s = AudioStore::new(25);
    let a = s.insert(clip(10));
    let b = s.insert(clip(10));
    let _ = s.insert(clip(10));
    assert!(s.concat(&[a]).is_empty(), "oldest clip evicted on overflow");
    assert_eq!(s.concat(&[b]).len(), 10, "newer clips survive");
}

#[test]
fn insert_shares_allocation_with_caller() {
    let mut s = AudioStore::new(1_000_000);
    let pcm = Arc::new(vec![7i16; 100]);
    let id = s.insert(Arc::clone(&pcm));
    assert_eq!(Arc::strong_count(&pcm), 2, "store and caller share one allocation");
    let joined = s.concat(&[id]);
    assert_eq!(joined, vec![7i16; 100]);
}

#[test]
fn the_order_asked_for_is_the_order_given() {
    let mut s = AudioStore::new(1_000);
    let a = s.insert(Arc::new(vec![1, 1]));
    let b = s.insert(Arc::new(vec![2]));
    assert_eq!(s.concat(&[b, a, b]), vec![2, 1, 1, 2]);
    assert_eq!(s.total_samples(), 3);
    assert_eq!(s.next_id(), 2);
}

#[test]
fn a_clip_over_the_cap_is_not_kept() {
    let mut s = AudioStore::new(5);
    let a = s.insert(clip(3));
    let b = s.insert(clip(9));
    assert!(s.concat(&[a, b]).is_empty());
    assert_eq!(s.total_samples(), 0);
    assert_eq!(s.insert(clip(5)), 2, "its id is not given again");
}

fn storage(root: &str) -> Storage {
    let audio = AudioArchive::new(ArchiveConfig {
        dir: format!("{root}/recordings"),
        ..Default::default()
    });
    Storage::new(audio, format!("{root}/turns"), 7)
}

fn turn(seq: u64) -> FinalTurn {
    FinalTurn {
        seq,
        at_us: seq as i64 * 1_000_000,
        duration_us: 100_000,
        raw_text: format!("原文{seq}"),
        streaming_text: format!("流式{seq}"),
        calibrated: format!("整流{seq}"),
        intent: "chat".into(),
        reply: "嗯".into(),
        route_us: 42_000,
        pcm: vec![seq as i16; 1600],
    }
}

#[test]
fn record_final_feeds_all_three_sinks() {
    let mut s = storage("/tmp/sinks");
    let today = now();
    let (rec, file) = s.record_final(turn(1), today, 0);
    assert!(matches!(s.audio.wav(1), Playback::Bytes(_)));
    assert!(rec.wav.contains("recordings"));
    let day = format_day(today);
    assert_eq!(file, format!("/tmp/sinks/turns/{day}.jsonl"));
    assert_eq!(rec.seq, 1);
    assert_eq!(rec.calibrated, "整流1");
    let metas = s.audio.list(&Vec::new());
    assert_eq!(metas[0].path, rec.wav, "transcript links to the audio file");
    assert_eq!(s.recent().len(), 1);
}

#[test]
fn day_log_appends_lines_in_order() {
    let log = TurnLog::new("/tmp/append/turns".to_string());
    let mut disk: HashMap<String, Vec<u64>> = HashMap::new();
    disk.entry(log.day_file("2026-07-17")).or_default().push(1);
    disk.entry(log.day_file("2026-07-17")).or_default().push(2);
    assert_eq!(disk["/tmp/append/turns/2026-07-17.jsonl"], vec![1, 2]);
    disk.entry(log.day_file("2026-07-18")).or_default().push(2);
    assert!(disk.contains_key("/tmp/append/turns/2026-07-18.jsonl"));
}

#[test]
fn cleanup_expired_removes_old_days_keeps_recent() {
    let s = storage("/tmp/cleanup");
    let old_day = format_day(local_time_days_ago(30).past);
    let today = format_day(local_time_days_ago(0).past);
    let logs = vec![format!("{old_day}.jsonl"), format!("{today}.jsonl")];
    let dirs = vec![old_day.clone(), today.clone()];
    let (cutoff, reading) = s.turn_log().cutoff_day();
    assert_eq!(cutoff, format_day(reading.past));
    assert!(old_day < cutoff && cutoff < format_day(reading.now), "seven days are kept");
    let gone_logs = s.turn_log().expired_of(&logs, &cutoff);
    let gone_dirs = expired_dirs(&dirs, &cutoff);
    assert_eq!(gone_logs.len() + gone_dirs.len(), 2, "old audio day dir + old turn log removed");
    assert_eq!(gone_dirs, vec![old_day.clone()], "old recordings gone, today kept");
    assert_eq!(gone_logs, vec![format!("{old_day}.jsonl")], "old turn log gone, today kept");
}

#[test]
fn recent_ring_is_bounded() {
    let mut s = storage("/tmp/ring");
    s.set_recent_cap(3);
    for i in 1..=5 {
        s.record_final(turn(i), now(), 0);
    }
    let seqs: Vec<u64> = s.recent().iter().map(|r| r.seq).collect();
    assert_eq!(seqs, vec![3, 4, 5], "oldest evicted, newest last");
}

#[test]
fn a_ring_without_room_keeps_nothing() {
    let mut s = storage("/tmp/no-ring");
    s.record_final(turn(1), now(), 0);
    s.set_recent_cap(0);
    s.record_final(turn(2), now(), 0);
    assert!(s.recent().is_empty());
}

#[test]
fn names_that_are_no_days_are_kept() {
    let log = TurnLog::new("t".to_string()).with_retention(3);
    let names: Vec<String> = vec![
        "2026-01-01".into(),
        "2026-01-02.jsonl".into(),
        "2026-01-03".into(),
        "2026-01-04.jsonl".into(),
        "notes.txt".into(),
        "2026-1-1".into(),
        "0123456789.jsonl".into(),
        "2026-01-0x.jsonl".into(),
        "1234567890".into(),
    ];
    let gone = log.expired_of(&names, "2026-01-03");
    assert_eq!(gone, vec!["2026-01-02.jsonl".to_string()]);
    assert_eq!(expired_dirs(&names, "2026-01-03"), vec!["2026-01-01".to_string()]);
}

#[test]
fn days_and_times_are_padded() {
    let t = LocalTime { year: 987, month: 3, day: 4, hour: 5, minute: 6, second: 7 };
    assert_eq!(format_day(t), "0987-03-04");
    assert_eq!(format_clock(t), "050607");
    let (day, name) = clip_rel_path(t, 1_756_615_200_123_456);
    assert_eq!((day.as_str(), name.as_str()), ("0987-03-04", "050607_1756615200123456.wav"));
    let earlier = format_day(LocalTime { year: 986, month: 12, day: 31, ..t });
    assert!(earlier < format_day(t), "names sort as days do");
}

#[test]
fn the_clock_goes_back_by_days() {
    let today = format_day(local_time_days_ago(0).past);
    let reading = local_time_days_ago(1);
    let before = format_day(reading.past);
    assert_eq!(today.len(), 10);
    assert!(before < today);
    // 400 years have 146097 days; the clock on the wall is the same but for the offsets.
    let far = local_time_days_ago(146_097);
    assert_eq!(far.now.year - far.past.year, 400);
    let wall = |t: LocalTime| (t.hour * 3600 + t.minute * 60 + t.second) as i32;
    let utc = |t: LocalTime, offset: i32| (wall(t) - offset).rem_euclid(86_400);
    assert_eq!(utc(far.now, far.now_offset), utc(far.past, far.past_offset));
    let first = local_time_days_ago(MAX_DAYS_BACK);
    assert!(first.past.year < -262_000, "as far as the calendar goes");
}

#[test]
fn fifo_eviction() {
    let mut w = ContextWindow::new(2);
    w.push("a1", "A1", "chat");
    w.push("a2", "A2", "task");
    w.push("a3", "A3", "chat");
    assert_eq!(w.len(), 2);
    let c = w.as_compact();
    assert!(c.contains("A2") && c.contains("A3"), "should contain A2 & A3, got: {c}");
    assert!(!c.contains("A1"), "A1 should be evicted");
}

#[test]
fn a_window_without_room_keeps_nothing() {
    let mut w = ContextWindow::new(0);
    w.push("a", "A", "chat");
    assert_eq!(w.len(), 0);
}

#[test]
fn pairs_formatting() {
    let mut w = ContextWindow::new(3);
    w.push("rost语言", "Rust语言", "task");
    w.push("B位引擎", "2D引擎", "task");
    let pairs = w.as_pairs();
    assert!(
        pairs.contains("rost语言") && pairs.contains("Rust语言"),
        "raw+calibrated pair missing"
    );
    assert!(pairs.contains("B位引擎") && pairs.contains("2D引擎"));
}

#[test]
fn compact_vs_pairs() {
    let mut w = ContextWindow::new(2);
    w.push("a", "A", "chat");
    assert!(w.as_compact().contains("A"), "compact should have calibrated text");
    assert!(w.as_pairs().contains("原文: a"), "pairs should have raw text");
}

#[test]
fn the_last_turns_are_a_tail_of_all() {
    let mut w = ContextWindow::new(5);
    assert!(w.is_empty());
    w.push_at("a", "A", "chat", 1);
    w.push_at("b", "B", "chat", 2);
    w.push_at("c", "C", "chat", 3);
    assert_eq!(w.as_compact_last(9), w.as_compact());
    assert_eq!(w.as_compact(), "1. A\n2. B\n3. C");
    assert_eq!(w.as_compact_last(1), "1. C", "counted from one again");
    assert_eq!(w.as_compact_last(2), "1. B\n2. C");
    assert_eq!(w.as_compact_last(0), "");
}

#[test]
fn wav_header_is_valid() {
    let pcm = vec![0i16; 16000];
    let wav = pcm_to_wav(&pcm, 16000);
    assert_eq!(&wav[0..4], b"RIFF");
    assert_eq!(&wav[8..12], b"WAVE");
    assert_eq!(&wav[12..16], b"fmt ");
    assert_eq!(&wav[36..40], b"data");
    assert_eq!(u32::from_le_bytes(wav[40..44].try_into().unwrap()), 32000);
}

#[test]
fn what_is_written_is_read_back() {
    let pcm = vec![0i16, 1, -1, i16::MAX, i16::MIN, 12345];
    let wav = pcm_to_wav(&pcm, 16000);
    assert_eq!(parse_wav(&wav), Some((pcm, 16000)));
    assert_eq!(parse_wav(&vec![0u8; 10]), None, "too short");
    assert_eq!(wav_duration_us(44 + 32_000, 16_000), Some(1_000_000));
    assert_eq!(wav_duration_us(10, 16_000), Some(0), "less than a header");
    assert_eq!(wav_duration_us(44 + 32_000, 0), None, "no rate");
}

#[test]
fn two_channels_become_their_mean() {
    let mut wav = pcm_to_wav(&[10, 20, -3, -4], 8000);
    wav[22] = 2;
    assert_eq!(parse_wav(&wav), Some((vec![15, -3], 8000)));
}

#[test]
fn a_reading_of_the_clock_is_cut_to_its_unit() {
    let reading = Some(1_700_000_000_123_456_789);
    assert_eq!(micros_of(reading), 1_700_000_000_123_456);
    assert_eq!(millis_of(reading), 1_700_000_000_123);
    assert_eq!(subsec_of(reading), 123_456_789);
    assert_eq!(micros_of(None), 0);
    assert_eq!(millis_of(None), 0);
    assert_eq!(subsec_of(None), 0);
    let far = (1u128 << 64) + 7;
    assert_eq!(micros_of(Some(far * 1_000)), 7);
    assert_eq!(millis_of(Some(far * 1_000_000)), 7);
}
