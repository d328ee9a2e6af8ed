//! The storage of finished turns: the record of each, the day log it goes to, the ring of the
//! most recent ones, and which day logs have expired.

use std::collections::VecDeque;

use vstd::prelude::*;
use vstd::string::*;

use crate::archive::{rel_path, AudioArchive, ArchiveView};
use crate::clock::{
    day_text, earlier_day, format_day, law_day_names_sort_as_days, law_days_are_numbered_in_order,
    law_days_back_is_that_many_days, lemma_day_name, local_time_days_ago, DayReading, LocalTime,
    MAX_DAYS_BACK,
};
use crate::text::{
    chars_of, comes_before, has_suffix, join_path, path_under, strip_suffix, text_before, views,
};

verus! {

/// All that is kept of a finished turn.
#[derive(Debug)]
pub struct TurnRecord {
    pub seq: u64,
    /// Milliseconds since the Unix epoch.
    pub unix_ms: i64,
    /// Time since the pipeline started.
    pub at_us: i64,
    pub duration_us: u128,
    pub raw_text: String,
    pub streaming_text: String,
    pub calibrated: String,
    pub intent: String,
    pub reply: String,
    pub route_us: u64,
    /// The path of the recording.
    pub wav: String,
}

impl Clone for TurnRecord {
    fn clone(&self) -> (r: Self)
        ensures
            r == *self,
    {
        TurnRecord {
            seq: self.seq,
            unix_ms: self.unix_ms,
            at_us: self.at_us,
            duration_us: self.duration_us,
            raw_text: self.raw_text.clone(),
            streaming_text: self.streaming_text.clone(),
            calibrated: self.calibrated.clone(),
            intent: self.intent.clone(),
            reply: self.reply.clone(),
            route_us: self.route_us,
            wav: self.wav.clone(),
        }
    }
}

/// A finished turn with its audio.
#[derive(Debug)]
pub struct FinalTurn {
    pub seq: u64,
    pub at_us: i64,
    pub duration_us: u128,
    pub raw_text: String,
    pub streaming_text: String,
    pub calibrated: String,
    pub intent: String,
    pub reply: String,
    pub route_us: u64,
    pub pcm: Vec<i16>,
}

/// `r` is the record of `t`, written at `unix_ms`, with its recording at `wav`.
pub open spec fn records(r: TurnRecord, t: FinalTurn, unix_ms: i64, wav: Seq<char>) -> bool {
    &&& r.seq == t.seq
    &&& r.unix_ms == unix_ms
    &&& r.at_us == t.at_us
    &&& r.duration_us == t.duration_us
    &&& r.raw_text == t.raw_text
    &&& r.streaming_text == t.streaming_text
    &&& r.calibrated == t.calibrated
    &&& r.intent == t.intent
    &&& r.reply == t.reply
    &&& r.route_us == t.route_us
    &&& r.wav@ == wav
}

/// The day logs: one file of lines for each day, kept for some days.
#[derive(Debug)]
pub struct TurnLog {
    dir: String,
    retention_days: u32,
}

/// The day logs as a value.
pub struct LogView {
    pub dir: Seq<char>,
    pub retention: int,
}

impl View for TurnLog {
    type V = LogView;

    closed spec fn view(&self) -> LogView {
        LogView { dir: self.dir@, retention: self.retention_days as int }
    }
}

/// The ending of a day log.
pub const LOG_ENDING: &'static str = ".jsonl";

/// A decimal digit?
pub open spec fn is_digit(c: char) -> bool {
    '0' <= c <= '9'
}

/// Is it the name of a day: digits in the form of a date?
pub open spec fn is_day_name(s: Seq<char>) -> bool {
    s.len() == 10 && forall|i: int|
        0 <= i < 10 ==> if i == 4 || i == 7 {
            #[trigger] s[i] == '-'
        } else {
            is_digit(s[i])
        }
}

/// Has what is named so expired: is the name that of a day before the cutoff, with that ending?
pub open spec fn expired(name: Seq<char>, ending: Seq<char>, cutoff: Seq<char>) -> bool {
    &&& has_suffix(name, ending)
    &&& is_day_name(name.take(name.len() - ending.len()))
    &&& text_before(name.take(name.len() - ending.len()), cutoff)
}

/// The names that have expired, in order.
pub open spec fn expired_names(names: Seq<Seq<char>>, ending: Seq<char>, cutoff: Seq<char>) -> Seq<
    Seq<char>,
>
    decreases names.len(),
{
    if names.len() == 0 {
        Seq::empty()
    } else if expired(names.last(), ending, cutoff) {
        expired_names(names.drop_last(), ending, cutoff).push(names.last())
    } else {
        expired_names(names.drop_last(), ending, cutoff)
    }
}

fn names_a_day(s: &str) -> (r: bool)
    ensures
        r == is_day_name(s@),
{
    let cs = chars_of(s);
    if cs.len() != 10 {
        return false;
    }
    let mut i: usize = 0;
    while i < 10
        invariant
            i <= 10,
            cs@.len() == 10,
            cs@ == s@,
            forall|j: int|
                0 <= j < i ==> if j == 4 || j == 7 {
                    #[trigger] cs@[j] == '-'
                } else {
                    is_digit(cs@[j])
                },
        decreases 10 - i,
    {
        let c = cs[i];
        let fits = if i == 4 || i == 7 {
            c == '-'
        } else {
            '0' <= c && c <= '9'
        };
        if !fits {
            proof {
                assert(cs@[i as int] == c);
            }
            return false;
        }
        i = i + 1;
    }
    true
}

fn is_expired(name: &str, ending: &str, cutoff: &str) -> (r: bool)
    ensures
        r == expired(name@, ending@, cutoff@),
{
    match strip_suffix(name, ending) {
        Some(day) => names_a_day(day) && comes_before(day, cutoff),
        None => false,
    }
}

fn pick_expired(names: &Vec<String>, ending: &str, cutoff: &str) -> (r: Vec<String>)
    ensures
        views(r@) == expired_names(views(names@), ending@, cutoff@),
{
    let mut out: Vec<String> = Vec::new();
    let mut i: usize = 0;
    proof {
        assert(views(names@.take(0)) =~= Seq::empty());
        assert(views(out@) =~= Seq::empty());
    }
    while i < names.len()
        invariant
            0 <= i <= names.len(),
            views(out@) == expired_names(views(names@.take(i as int)), ending@, cutoff@),
        decreases names.len() - i,
    {
        let ghost before = views(out@);
        proof {
            let now = views(names@.take(i + 1));
            assert(now.drop_last() =~= views(names@.take(i as int)));
            assert(now.last() == names@[i as int]@);
        }
        if is_expired(names[i].as_str(), ending, cutoff) {
            out.push(names[i].clone());
            proof {
                assert(views(out@) =~= before.push(names@[i as int]@));
            }
        }
        i = i + 1;
    }
    proof {
        assert(names@.take(names@.len() as int) =~= names@);
    }
    out
}

impl TurnLog {
    /// Logs in `dir`, kept for a week.
    pub fn new(dir: String) -> (r: Self)
        ensures
            r@ == (LogView { dir: dir@, retention: 7 }),
    {
        TurnLog { dir, retention_days: 7 }
    }

    /// Kept for `days` days; 0 leaves it as it is.
    pub fn with_retention(self, days: u32) -> (r: Self)
        ensures
            r@ == (if days > 0 {
                LogView { retention: days as int, ..self@ }
            } else {
                self@
            }),
    {
        if days > 0 {
            TurnLog { retention_days: days, ..self }
        } else {
            self
        }
    }

    /// The file of a day.
    pub fn day_file(&self, day: &str) -> (r: String)
        ensures
            r@ == path_under(self@.dir, day@ + LOG_ENDING@),
    {
        let mut name = day.to_owned();
        name.append(LOG_ENDING);
        join_path(self.dir.as_str(), name.as_str())
    }

    /// The first day that is still kept, with the reading of the clock that it comes from: the
    /// day so many days ago as logs are kept.
    pub fn cutoff_day(&self) -> (r: (String, DayReading))
        requires
            self@.retention <= MAX_DAYS_BACK,
        ensures
            r.1.apart(self@.retention),
            r.0@ == day_text(r.1.past),
    {
        let reading = local_time_days_ago(self.retention_days);
        (format_day(reading.past), reading)
    }

    /// Of the given names, those of logs of days before the cutoff.
    pub fn expired_of(&self, names: &Vec<String>, cutoff: &str) -> (r: Vec<String>)
        ensures
            views(r@) == expired_names(views(names@), LOG_ENDING@, cutoff@),
    {
        pick_expired(names, LOG_ENDING, cutoff)
    }
}

/// Of the given names of directories, those of days before the cutoff.
pub fn expired_dirs(names: &Vec<String>, cutoff: &str) -> (r: Vec<String>)
    ensures
        views(r@) == expired_names(views(names@), ""@, cutoff@),
{
    pick_expired(names, "", cutoff)
}

/// Recordings, day logs and the ring of recent turns together.
pub struct Storage {
    pub audio: AudioArchive,
    turns: TurnLog,
    recent: VecDeque<TurnRecord>,
    recent_cap: usize,
}

/// How many recent turns are kept by default.
pub const RECENT_CAP: usize = 100;

/// The storage as a value.
pub struct StorageView {
    pub audio: ArchiveView,
    pub log: LogView,
    pub recent: Seq<TurnRecord>,
    pub recent_cap: int,
}

/// The ring with one more turn: the newest are kept, as many as there is room for.
pub open spec fn ring_with(recent: Seq<TurnRecord>, cap: int, r: TurnRecord) -> Seq<TurnRecord> {
    let all = recent.push(r);
    if all.len() > cap {
        all.skip(all.len() - cap)
    } else {
        all
    }
}

impl View for Storage {
    type V = StorageView;

    closed spec fn view(&self) -> StorageView {
        StorageView {
            audio: self.audio@,
            log: self.turns@,
            recent: self.recent@,
            recent_cap: self.recent_cap as int,
        }
    }
}

impl Storage {
    /// A storage over an archive, with day logs in `turns_dir` kept for `retention_days`.
    pub fn new(audio: AudioArchive, turns_dir: String, retention_days: u32) -> (r: Self)
        ensures
            r@ == (StorageView {
                audio: audio@,
                log: LogView {
                    dir: turns_dir@,
                    retention: if retention_days > 0 {
                        retention_days as int
                    } else {
                        7
                    },
                },
                recent: Seq::empty(),
                recent_cap: RECENT_CAP as int,
            }),
    {
        Storage {
            audio,
            turns: TurnLog::new(turns_dir).with_retention(retention_days),
            recent: VecDeque::new(),
            recent_cap: RECENT_CAP,
        }
    }

    /// Keeps at most `cap` recent turns from now on.
    pub fn set_recent_cap(&mut self, cap: usize)
        ensures
            final(self)@ == (StorageView { recent_cap: cap as int, ..old(self)@ }),
    {
        self.recent_cap = cap;
    }

    /// The day logs.
    pub fn turn_log(&self) -> (r: &TurnLog)
        ensures
            r@ == self@.log,
    {
        &self.turns
    }

    /// Takes a finished turn: its audio goes to the archive under a path of the day `now`, and
    /// the record to the ring. Returns the record and the day log that it is to be appended to.
    pub fn record_final(&mut self, t: FinalTurn, now: LocalTime, unix_ms: i64) -> (r: (
        TurnRecord,
        String,
    ))
        requires
            old(self)@.audio.wf(),
        ensures
            final(self)@.audio.wf(),
            ({
                let dir = old(self)@.audio.dir;
                let wav = path_under(
                    path_under(dir, rel_path(now, t.seq).0),
                    rel_path(now, t.seq).1,
                );
                &&& records(r.0, t, unix_ms, wav)
                &&& final(self)@ == (StorageView {
                    audio: old(self)@.audio.pushed(t.seq, t.at_us, t.pcm@, wav),
                    recent: ring_with(old(self)@.recent, old(self)@.recent_cap, r.0),
                    ..old(self)@
                })
            }),
            r.1@ == path_under(old(self)@.log.dir, day_text(now) + LOG_ENDING@),
    {
        let wav = self.audio.push(t.seq, t.at_us, t.pcm, now);
        let rec = TurnRecord {
            seq: t.seq,
            unix_ms,
            at_us: t.at_us,
            duration_us: t.duration_us,
            raw_text: t.raw_text,
            streaming_text: t.streaming_text,
            calibrated: t.calibrated,
            intent: t.intent,
            reply: t.reply,
            route_us: t.route_us,
            wav,
        };
        let day = format_day(now);
        let file = self.turns.day_file(day.as_str());
        let ghost all = self.recent@.push(rec);
        let ghost audio = self.audio@;
        self.recent.push_back(rec.clone());
        while self.recent.len() > self.recent_cap
            invariant
                self.recent_cap == old(self)@.recent_cap,
                self.turns@ == old(self)@.log,
                self.audio@ == audio,
                self.recent@.len() <= all.len(),
                self.recent@.len() >= self.recent_cap || self.recent@ == all,
                self.recent@ == all.skip(all.len() - self.recent@.len()),
            decreases self.recent@.len(),
        {
            let ghost now = self.recent@;
            let _ = self.recent.pop_front();
            proof {
                assert(self.recent@ =~= now.skip(1));
                assert(self.recent@ =~= all.skip(all.len() - self.recent@.len()));
            }
        }
        proof {
            assert(all.skip(0) =~= all);
        }
        (rec, file)
    }

    /// The recent turns, oldest first.
    pub fn recent(&self) -> (r: Vec<TurnRecord>)
        ensures
            r@ == self@.recent,
    {
        let mut out: Vec<TurnRecord> = Vec::new();
        let mut i: usize = 0;
        while i < self.recent.len()
            invariant
                0 <= i <= self.recent@.len(),
                out@ == self.recent@.take(i as int),
            decreases self.recent@.len() - i,
        {
            out.push(self.recent[i].clone());
            i = i + 1;
            proof {
                assert(self.recent@.take(i as int) =~= self.recent@.take(i - 1).push(
                    self.recent@[i - 1],
                ));
            }
        }
        proof {
            assert(self.recent@.take(self.recent@.len() as int) =~= self.recent@);
        }
        out
    }
}

/// Law: the ring never outgrows its capacity, and holds nothing where that is 0; otherwise it ends
/// with the newest turn, and before it stand the newest of those from before, in order.
pub proof fn law_ring_is_bounded(recent: Seq<TurnRecord>, cap: int, r: TurnRecord)
    requires
        cap >= 0,
    ensures
        ring_with(recent, cap, r).len() <= cap,
        cap > 0 ==> ring_with(recent, cap, r).last() == r,
        forall|i: int|
            0 <= i < ring_with(recent, cap, r).len() - 1 ==> (#[trigger] ring_with(
                recent,
                cap,
                r,
            )[i]) == recent[i + recent.len() - (ring_with(recent, cap, r).len() - 1)],
{
}

/// Law: the log of a day expires exactly once its day is before the cutoff, so while the offset
/// of the zone stays the same, exactly once it is more days back than logs are kept.
pub proof fn law_logs_are_kept_for_the_retention(t: LocalTime, d: DayReading, retention: int)
    requires
        d.apart(retention),
        t.on_calendar(),
        0 <= t.year <= 9999,
        0 <= d.past.year <= 9999,
    ensures
        expired(day_text(t) + LOG_ENDING@, LOG_ENDING@, day_text(d.past)) <==> earlier_day(
            t,
            d.past,
        ),
        d.now_offset == d.past_offset ==> (expired(
            day_text(t) + LOG_ENDING@,
            LOG_ENDING@,
            day_text(d.past),
        ) <==> t.day_number() < d.now.day_number() - retention),
{
    let name = day_text(t) + LOG_ENDING@;
    assert(name.skip(name.len() - LOG_ENDING@.len()) =~= LOG_ENDING@);
    assert(name.take(name.len() - LOG_ENDING@.len()) =~= day_text(t));
    lemma_day_name(t);
    law_day_names_sort_as_days(t, d.past);
    law_days_are_numbered_in_order(t, d.past);
    law_days_back_is_that_many_days(d, retention);
}

/// Law: the names that have expired are those among the given ones, in their order, that name a
/// day of the log before the cutoff; all others are kept.
pub proof fn law_only_expired_names_are_picked(
    names: Seq<Seq<char>>,
    ending: Seq<char>,
    cutoff: Seq<char>,
)
    ensures
        expired_names(names, ending, cutoff) == names.filter(
            |name: Seq<char>| expired(name, ending, cutoff),
        ),
    decreases names.len(),
{
    reveal(Seq::filter);
    if names.len() > 0 {
        law_only_expired_names_are_picked(names.drop_last(), ending, cutoff);
    }
}

/// Law: nothing that is not named after a day, with the ending of a log, ever expires; and no day
/// on or after the cutoff does.
pub proof fn law_other_files_never_expire(
    name: Seq<char>,
    day: Seq<char>,
    ending: Seq<char>,
    cutoff: Seq<char>,
)
    ensures
        !has_suffix(name, ending) ==> !expired(name, ending, cutoff),
        expired(day + ending, ending, cutoff) ==> day.len() == 10 && day[4] == '-' && day[7] == '-',
        expired(day + ending, ending, cutoff) ==> text_before(day, cutoff),
        is_day_name(day) && text_before(day, cutoff) ==> expired(day + ending, ending, cutoff),
        !expired(cutoff + ending, ending, cutoff),
{
    let all = day + ending;
    assert(all.take(all.len() - ending.len()) =~= day);
    assert(all.skip(all.len() - ending.len()) =~= ending);
    let last = cutoff + ending;
    assert(last.take(last.len() - ending.len()) =~= cutoff);
    crate::text::lemma_text_not_before_itself(cutoff);
}

/// Law: the record of a turn is the turn, word for word, with the time it was taken and the path
/// of its recording.
pub proof fn law_the_record_is_the_turn(r: TurnRecord, t: FinalTurn, unix_ms: i64, wav: Seq<char>)
    requires
        records(r, t, unix_ms, wav),
    ensures
        r.seq == t.seq && r.unix_ms == unix_ms && r.at_us == t.at_us && r.wav@ == wav,
        r.duration_us == t.duration_us && r.route_us == t.route_us,
        r.raw_text@ == t.raw_text@ && r.streaming_text@ == t.streaming_text@,
        r.calibrated@ == t.calibrated@ && r.intent@ == t.intent@ && r.reply@ == t.reply@,
{
}

/// Law: until the ring is full nothing leaves it.
pub proof fn law_turns_stay_while_there_is_room(recent: Seq<TurnRecord>, cap: int, r: TurnRecord)
    requires
        recent.len() < cap,
    ensures
        ring_with(recent, cap, r) == recent.push(r),
{
}

/// Law: a finished turn is recorded word for word, is the newest of the recent ones, and its audio
/// is kept under its own number, at the path that the record names, in the log of its day.
pub proof fn law_a_finished_turn_is_recorded_whole(
    s: &mut Storage,
    t: FinalTurn,
    now: LocalTime,
    unix_ms: i64,
    r: (TurnRecord, String),
)
    requires
        call_ensures(Storage::record_final, (s, t, now, unix_ms), r),
        old(s)@.recent_cap > 0,
    ensures
        r.0.seq == t.seq && r.0.unix_ms == unix_ms && r.0.at_us == t.at_us,
        r.0.raw_text@ == t.raw_text@ && r.0.streaming_text@ == t.streaming_text@,
        r.0.calibrated@ == t.calibrated@ && r.0.intent@ == t.intent@ && r.0.reply@ == t.reply@,
        r.0.duration_us == t.duration_us && r.0.route_us == t.route_us,
        final(s)@.recent.len() > 0 && final(s)@.recent[final(s)@.recent.len() - 1] == r.0,
        final(s)@.audio == old(s)@.audio.pushed(t.seq, t.at_us, t.pcm@, r.0.wav@),
        r.0.wav@ == path_under(
            path_under(old(s)@.audio.dir, day_text(now)),
            rel_path(now, t.seq).1,
        ),
        r.1@ == path_under(old(s)@.log.dir, day_text(now) + LOG_ENDING@),
{
    law_ring_is_bounded(old(s)@.recent, old(s)@.recent_cap, r.0);
}

/// Law: logs are kept for as many days as was asked for, and for seven where nothing was.
pub proof fn law_the_retention_is_what_was_asked_for(
    dir: String,
    days: u32,
    a: TurnLog,
    b: TurnLog,
)
    requires
        call_ensures(TurnLog::new, (dir,), a),
        call_ensures(TurnLog::with_retention, (a, days), b),
    ensures
        a@.retention == 7,
        days > 0 ==> b@.retention == days,
        days == 0 ==> b@.retention == 7,
        b@.dir == dir@,
{
}

/// Law: of the given names exactly those are picked that name a day of the log before the cutoff.
pub proof fn law_only_expired_files_are_picked(
    log: TurnLog,
    names: Vec<String>,
    cutoff: &str,
    r: Vec<String>,
    i: int,
)
    requires
        call_ensures(TurnLog::expired_of, (&log, &names, cutoff), r),
    ensures
        0 <= i < r@.len() ==> expired(r@[i]@, ".jsonl"@, cutoff@),
        0 <= i < names@.len() && expired(names@[i]@, ".jsonl"@, cutoff@) ==> views(r@).contains(
            names@[i]@,
        ),
        r@.len() <= names@.len(),
{
    let all = views(names@);
    let keep = |name: Seq<char>| expired(name, LOG_ENDING@, cutoff@);
    law_only_expired_names_are_picked(all, LOG_ENDING@, cutoff@);
    all.lemma_filter_len(keep);
    if 0 <= i < r@.len() {
        all.lemma_filter_pred(keep, i);
        assert(views(r@)[i] == r@[i]@);
    }
    if 0 <= i < names@.len() && expired(names@[i]@, LOG_ENDING@, cutoff@) {
        all.lemma_filter_contains(keep, i);
        assert(all[i] == names@[i]@);
    }
}

/// Law: a day is named by its digits: four, two and two of them, with a dash between; nothing else
/// is a day's name.
pub proof fn law_a_day_is_named_by_its_digits(s: Seq<char>)
    ensures
        is_day_name(s) <==> s.len() == 10 && s[4] == '-' && s[7] == '-' && (forall|i: int|
            0 <= i < 10 && i != 4 && i != 7 ==> '0' <= #[trigger] s[i] <= '9'),
{
}

} // verus!
