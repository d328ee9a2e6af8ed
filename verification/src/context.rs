//! The sliding window of recent calibrations, as context for the next prompt.

use std::collections::VecDeque;

use vstd::prelude::*;
use vstd::string::*;

use crate::clock::unix_millis;
use crate::text::{decimal, decimal_text, join, joined, views};

verus! {

/// One utterance and what it was calibrated to.
#[derive(Debug)]
pub struct CalibrationEntry {
    pub raw: String,
    pub calibrated: String,
    /// `chat` or `task`.
    pub intent: String,
    /// Milliseconds since the Unix epoch.
    pub timestamp_ms: u64,
}

/// An entry as a value.
pub struct EntryView {
    pub raw: Seq<char>,
    pub calibrated: Seq<char>,
    pub intent: Seq<char>,
    pub timestamp_ms: u64,
}

impl View for CalibrationEntry {
    type V = EntryView;

    open spec fn view(&self) -> EntryView {
        EntryView {
            raw: self.raw@,
            calibrated: self.calibrated@,
            intent: self.intent@,
            timestamp_ms: self.timestamp_ms,
        }
    }
}

/// The last calibrations, oldest first.
pub struct ContextWindow {
    entries: VecDeque<CalibrationEntry>,
    cap: usize,
}

/// The window as a value.
pub struct WindowView {
    pub entries: Seq<EntryView>,
    pub cap: int,
}

impl View for ContextWindow {
    type V = WindowView;

    closed spec fn view(&self) -> WindowView {
        WindowView {
            entries: Seq::new(self.entries@.len(), |i: int| self.entries@[i]@),
            cap: self.cap as int,
        }
    }
}

impl WindowView {
    /// With one more entry: the newest are kept, as many as there is room for.
    pub open spec fn pushed(self, e: EntryView) -> WindowView {
        WindowView { entries: last_entries(self.entries.push(e), self.cap), ..self }
    }
}

/// The line of an entry with its number: the calibrated text.
pub open spec fn compact_line(n: nat, e: EntryView) -> Seq<char> {
    decimal(n) + ". "@ + e.calibrated
}

/// The lines of an entry with its number: the raw text and the calibrated text.
pub open spec fn pair_line(n: nat, e: EntryView) -> Seq<char> {
    decimal(n) + ". 原文: "@ + e.raw + "\n   校准: "@ + e.calibrated
}

/// The calibrated texts, one numbered line each.
pub open spec fn compact(entries: Seq<EntryView>) -> Seq<char> {
    joined(Seq::new(entries.len(), |i: int| compact_line((i + 1) as nat, entries[i])), "\n"@)
}

/// The raw and calibrated texts, numbered.
pub open spec fn paired(entries: Seq<EntryView>) -> Seq<char> {
    joined(Seq::new(entries.len(), |i: int| pair_line((i + 1) as nat, entries[i])), "\n"@)
}

/// The last `n` entries, or all where there are fewer.
pub open spec fn last_entries(entries: Seq<EntryView>, n: int) -> Seq<EntryView> {
    if n >= entries.len() {
        entries
    } else {
        entries.skip(entries.len() - n)
    }
}

impl ContextWindow {
    /// An empty window for `capacity` entries.
    pub fn new(capacity: usize) -> (r: Self)
        ensures
            r@ == (WindowView { entries: Seq::empty(), cap: capacity as int }),
    {
        let r = ContextWindow { entries: VecDeque::new(), cap: capacity };
        proof {
            assert(r@.entries =~= Seq::empty());
        }
        r
    }

    /// Takes an entry made at `timestamp_ms`; a full window loses its oldest.
    pub fn push_at(&mut self, raw: &str, calibrated: &str, intent: &str, timestamp_ms: u64)
        ensures
            final(self)@ == old(self)@.pushed(
                (EntryView { raw: raw@, calibrated: calibrated@, intent: intent@, timestamp_ms }),
            ),
    {
        let ghost all = self@.entries.push(
            EntryView { raw: raw@, calibrated: calibrated@, intent: intent@, timestamp_ms },
        );
        self.entries.push_back(
            CalibrationEntry {
                raw: raw.to_owned(),
                calibrated: calibrated.to_owned(),
                intent: intent.to_owned(),
                timestamp_ms,
            },
        );
        proof {
            assert(self@.entries =~= all);
        }
        while self.entries.len() > self.cap
            invariant
                self.cap == old(self)@.cap,
                self@.entries.len() <= all.len(),
                self@.entries.len() >= self.cap || self@.entries == all,
                self@.entries == all.skip(all.len() - self@.entries.len()),
            decreases self.entries@.len(),
        {
            let ghost now = self@.entries;
            let _ = self.entries.pop_front();
            proof {
                assert(self@.entries =~= now.skip(1));
                assert(self@.entries =~= all.skip(all.len() - self@.entries.len()));
            }
        }
        proof {
            assert(all.skip(0) =~= all);
        }
    }

    /// Takes an entry made now.
    pub fn push(&mut self, raw: &str, calibrated: &str, intent: &str)
        ensures
            exists|timestamp_ms: u64|
                final(self)@ == old(self)@.pushed(
                    #[trigger] entry(raw@, calibrated@, intent@, timestamp_ms),
                ),
    {
        let now: u64 = unix_millis();
        self.push_at(raw, calibrated, intent, now);
        proof {
            assert(self@ == old(self)@.pushed(entry(raw@, calibrated@, intent@, now)));
        }
    }

    /// How many entries there are.
    pub fn len(&self) -> (r: usize)
        ensures
            r == self@.entries.len(),
    {
        self.entries.len()
    }

    /// Are there none?
    pub fn is_empty(&self) -> (r: bool)
        ensures
            r == (self@.entries.len() == 0),
    {
        self.entries.len() == 0
    }

    fn compact_from(&self, from: usize) -> (r: String)
        requires
            from <= self@.entries.len(),
        ensures
            r@ == compact(self@.entries.skip(from as int)),
    {
        let ghost es = self@.entries.skip(from as int);
        let ghost lines = Seq::new(es.len(), |i: int| compact_line((i + 1) as nat, es[i]));
        let mut out: Vec<String> = Vec::new();
        let mut i: usize = from;
        proof {
            assert(views(out@) =~= lines.take(0));
        }
        while i < self.entries.len()
            invariant
                from <= i <= self.entries@.len(),
                es == self@.entries.skip(from as int),
                lines == Seq::new(es.len(), |k: int| compact_line((k + 1) as nat, es[k])),
                views(out@) == lines.take(i - from),
            decreases self.entries@.len() - i,
        {
            let ghost before = views(out@);
            let mut line = decimal_text(((i - from) as u64) + 1);
            line.append(". ");
            line.append(self.entries[i].calibrated.as_str());
            out.push(line);
            i = i + 1;
            proof {
                assert(es[i - 1 - from] == self.entries@[i - 1]@);
                assert(line@ == lines[i - 1 - from]);
                assert(views(out@) =~= before.push(line@));
                assert(lines.take(i - from) =~= lines.take(i - 1 - from).push(lines[i - 1 - from]));
            }
        }
        proof {
            assert(lines.take(lines.len() as int) =~= lines);
        }
        join(&out, "\n")
    }

    /// The calibrated texts, one numbered line each.
    pub fn as_compact(&self) -> (r: String)
        ensures
            r@ == compact(self@.entries),
    {
        proof {
            assert(self@.entries.skip(0) =~= self@.entries);
        }
        self.compact_from(0)
    }

    /// The raw and the calibrated texts, numbered.
    pub fn as_pairs(&self) -> (r: String)
        ensures
            r@ == paired(self@.entries),
    {
        let ghost es = self@.entries;
        let ghost lines = Seq::new(es.len(), |i: int| pair_line((i + 1) as nat, es[i]));
        let mut out: Vec<String> = Vec::new();
        let mut i: usize = 0;
        proof {
            assert(views(out@) =~= lines.take(0));
        }
        while i < self.entries.len()
            invariant
                i <= self.entries@.len(),
                es == self@.entries,
                lines == Seq::new(es.len(), |k: int| pair_line((k + 1) as nat, es[k])),
                views(out@) == lines.take(i as int),
            decreases self.entries@.len() - i,
        {
            let ghost before = views(out@);
            let mut line = decimal_text((i as u64) + 1);
            line.append(". 原文: ");
            line.append(self.entries[i].raw.as_str());
            line.append("\n   校准: ");
            line.append(self.entries[i].calibrated.as_str());
            out.push(line);
            i = i + 1;
            proof {
                assert(es[i - 1] == self.entries@[i - 1]@);
                assert(line@ == lines[i - 1]);
                assert(views(out@) =~= before.push(line@));
                assert(lines.take(i as int) =~= lines.take(i - 1).push(lines[i - 1]));
            }
        }
        proof {
            assert(lines.take(lines.len() as int) =~= lines);
        }
        join(&out, "\n")
    }

    /// The calibrated texts of the last `n` entries, numbered from one.
    pub fn as_compact_last(&self, n: usize) -> (r: String)
        ensures
            r@ == compact(last_entries(self@.entries, n as int)),
    {
        let len: usize = self.entries.len();
        let from: usize = if n >= len {
            0
        } else {
            len - n
        };
        proof {
            if from == 0 {
                assert(self@.entries.skip(0) =~= self@.entries);
            }
        }
        self.compact_from(from)
    }
}

/// An entry from its parts.
pub open spec fn entry(raw: Seq<char>, calibrated: Seq<char>, intent: Seq<char>, timestamp_ms: u64) -> EntryView {
    EntryView { raw, calibrated, intent, timestamp_ms }
}

/// Law: after a push the window holds at most as many entries as its capacity says, none where
/// that is 0, and otherwise ends with the newest.
pub proof fn law_window_is_bounded(v: WindowView, e: EntryView)
    requires
        v.cap >= 0,
    ensures
        v.pushed(e).entries.len() <= v.cap,
        v.cap > 0 ==> v.pushed(e).entries.last() == e,
{
}

/// Law: first in, first out. A full window drops exactly its oldest entry and keeps the others in
/// order.
pub proof fn law_oldest_entry_leaves(v: WindowView, e: EntryView, i: int)
    requires
        v.cap >= 1,
        v.entries.len() == v.cap,
        0 <= i < v.cap - 1,
    ensures
        v.pushed(e).entries.len() == v.cap,
        v.pushed(e).entries[i] == v.entries[i + 1],
{
    assert(v.pushed(e).entries[i] == v.entries.push(e)[i + 1]);
}

/// Law: the newest entry is the last line of the context, numbered on from the ones before it:
/// its raw text under 原文, its calibrated text under 校准.
pub proof fn law_entries_are_listed_in_order(entries: Seq<EntryView>, e: EntryView)
    ensures
        ({
            let line = decimal(entries.len() + 1) + ". 原文: "@ + e.raw + "\n   校准: "@ + e.calibrated;
            &&& entries.len() == 0 ==> paired(entries.push(e)) == line
            &&& entries.len() > 0 ==> paired(entries.push(e)) == paired(entries) + "\n"@ + line
        }),
        ({
            let line = decimal(entries.len() + 1) + ". "@ + e.calibrated;
            &&& entries.len() == 0 ==> compact(entries.push(e)) == line
            &&& entries.len() > 0 ==> compact(entries.push(e)) == compact(entries) + "\n"@ + line
        }),
{
    let all = entries.push(e);
    let lines = Seq::new(all.len(), |i: int| pair_line((i + 1) as nat, all[i]));
    let shorts = Seq::new(all.len(), |i: int| compact_line((i + 1) as nat, all[i]));
    let n = entries.len();
    assert(lines.drop_last() =~= Seq::new(n, |i: int| pair_line((i + 1) as nat, entries[i])));
    assert(shorts.drop_last() =~= Seq::new(n, |i: int| compact_line((i + 1) as nat, entries[i])));
    assert(lines.last() == pair_line(n + 1, e));
    assert(shorts.last() == compact_line(n + 1, e));
}

/// Law: the last entries of a window are its newest, as many as are asked for or as there are.
pub proof fn law_the_last_entries_are_the_newest(entries: Seq<EntryView>, n: int)
    requires
        n >= 0,
    ensures
        ({
            let last = last_entries(entries, n);
            &&& last.len() == if n < entries.len() {
                n
            } else {
                entries.len() as int
            }
            &&& forall|i: int|
                0 <= i < last.len() ==> #[trigger] last[i] == entries[entries.len() - last.len()
                    + i]
        }),
{
}

/// Law: until the window is full nothing leaves it.
pub proof fn law_entries_stay_while_there_is_room(v: WindowView, e: EntryView)
    requires
        v.entries.len() < v.cap,
    ensures
        v.pushed(e).entries == v.entries.push(e),
        v.pushed(e).cap == v.cap,
{
}

/// Law: what is remembered of an utterance is the utterance: it is the newest entry, word for word.
pub proof fn law_an_entry_is_remembered_as_it_was(
    w: &mut ContextWindow,
    raw: &str,
    calibrated: &str,
    intent: &str,
    at: u64,
)
    requires
        call_ensures(ContextWindow::push_at, (w, raw, calibrated, intent, at), ()),
        old(w)@.cap > 0,
    ensures
        ({
            let n = final(w)@.entries.len() as int;
            let e = final(w)@.entries[n - 1];
            &&& n > 0
            &&& e.raw == raw@
            &&& e.calibrated == calibrated@
            &&& e.intent == intent@
            &&& e.timestamp_ms == at
        }),
{
    law_window_is_bounded(old(w)@, entry(raw@, calibrated@, intent@, at));
}

} // verus!
