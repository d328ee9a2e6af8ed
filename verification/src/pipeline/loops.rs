//! The decisions of the main loop, which alone talks to the caller: what an event of the
//! recognition or of a finished task leads to.

use std::collections::HashMap;

use vstd::prelude::*;
use vstd::string::*;

use crate::pipeline::turns::TurnEvent;
use crate::types::{
    clone_sentences, AudioId, ParagraphId, SentenceId, Stage1Event, VadParagraph, VadSentence,
};

verus! {

broadcast use vstd::std_specs::hash::group_hash_axioms;

/// What the main loop does next.
pub enum MainAction {
    /// Tell the caller.
    Emit(TurnEvent),
    /// Start the batch pass of a sentence.
    SentenceTask { paragraph_id: ParagraphId, sentence_id: SentenceId, audio_id: AudioId, sr: u32 },
    /// Start a calibration of the open paragraph, after the one before it.
    LiveCalibration { paragraph_id: ParagraphId, up_to: SentenceId, sentences: Vec<VadSentence> },
    /// Start the completion of a closed paragraph, once its sentence tasks and calibrations are
    /// through.
    ParagraphTask { paragraph: VadParagraph, sr: u32 },
}

/// The sentences of the open paragraphs, with the batch texts that have come in.
pub struct Turns {
    open_sents: HashMap<ParagraphId, Vec<VadSentence>>,
}

/// The sentences of each open paragraph.
pub type OpenSentences = Map<ParagraphId, Seq<VadSentence>>;

impl View for Turns {
    type V = OpenSentences;

    closed spec fn view(&self) -> OpenSentences {
        self.open_sents@.map_values(|v: Vec<VadSentence>| v@)
    }
}

/// `s`, with the batch text that `prev` already has.
pub open spec fn keeping_batch(prev: VadSentence, s: VadSentence) -> VadSentence {
    VadSentence {
        batch_text: if prev.batch_text is Some {
            prev.batch_text
        } else {
            s.batch_text
        },
        ..s
    }
}

/// The list with `s` in it: in place of the sentence of the same id, whose batch text it takes
/// over, or at the end.
pub open spec fn merged_one(list: Seq<VadSentence>, s: VadSentence) -> Seq<VadSentence>
    decreases list.len(),
{
    if list.len() == 0 {
        seq![s]
    } else if list[0].id == s.id {
        seq![keeping_batch(list[0], s)] + list.skip(1)
    } else {
        seq![list[0]] + merged_one(list.skip(1), s)
    }
}

/// The list with all of `sentences` in it.
pub open spec fn merged(list: Seq<VadSentence>, sentences: Seq<VadSentence>) -> Seq<VadSentence>
    decreases sentences.len(),
{
    if sentences.len() == 0 {
        list
    } else {
        merged_one(merged(list, sentences.drop_last()), sentences.last())
    }
}

/// The list with the batch text of the first sentence of that id set.
pub open spec fn with_batch(list: Seq<VadSentence>, id: SentenceId, text: Option<String>) -> Seq<VadSentence>
    decreases list.len(),
{
    if list.len() == 0 {
        list
    } else if list[0].id == id {
        seq![VadSentence { batch_text: text, ..list[0] }] + list.skip(1)
    } else {
        seq![list[0]] + with_batch(list.skip(1), id, text)
    }
}

/// The id stands at `i`, and nowhere before.
pub open spec fn first_id_at(list: Seq<VadSentence>, id: SentenceId, i: int) -> bool {
    &&& 0 <= i < list.len()
    &&& list[i].id == id
    &&& forall|j: int| 0 <= j < i ==> (#[trigger] list[j]).id != id
}

proof fn lemma_merged_at(list: Seq<VadSentence>, s: VadSentence, i: int)
    requires
        first_id_at(list, s.id, i),
    ensures
        merged_one(list, s) == list.update(i, keeping_batch(list[i], s)),
    decreases list.len(),
{
    let t = list.skip(1);
    if i == 0 {
        assert(merged_one(list, s) =~= list.update(0, keeping_batch(list[0], s)));
    } else {
        assert(list[0].id != s.id);
        assert forall|j: int| 0 <= j < i - 1 implies (#[trigger] t[j]).id != s.id by {
            assert(t[j] == list[j + 1]);
        }
        lemma_merged_at(t, s, i - 1);
        assert(merged_one(list, s) =~= list.update(i, keeping_batch(list[i], s)));
    }
}

proof fn lemma_merged_absent(list: Seq<VadSentence>, s: VadSentence)
    requires
        forall|j: int| 0 <= j < list.len() ==> (#[trigger] list[j]).id != s.id,
    ensures
        merged_one(list, s) == list.push(s),
    decreases list.len(),
{
    let t = list.skip(1);
    if list.len() == 0 {
        assert(merged_one(list, s) =~= list.push(s));
    } else {
        assert forall|j: int| 0 <= j < t.len() implies (#[trigger] t[j]).id != s.id by {
            assert(t[j] == list[j + 1]);
        }
        lemma_merged_absent(t, s);
        assert(merged_one(list, s) =~= list.push(s));
    }
}

proof fn lemma_with_batch_at(list: Seq<VadSentence>, id: SentenceId, text: Option<String>, i: int)
    requires
        first_id_at(list, id, i),
    ensures
        with_batch(list, id, text) == list.update(
            i,
            (VadSentence { batch_text: text, ..list[i] }),
        ),
    decreases list.len(),
{
    let t = list.skip(1);
    if i == 0 {
        assert(with_batch(list, id, text) =~= list.update(
            0,
            (VadSentence { batch_text: text, ..list[0] }),
        ));
    } else {
        assert(list[0].id != id);
        assert forall|j: int| 0 <= j < i - 1 implies (#[trigger] t[j]).id != id by {
            assert(t[j] == list[j + 1]);
        }
        lemma_with_batch_at(t, id, text, i - 1);
        assert(with_batch(list, id, text) =~= list.update(
            i,
            (VadSentence { batch_text: text, ..list[i] }),
        ));
    }
}

proof fn lemma_with_batch_absent(list: Seq<VadSentence>, id: SentenceId, text: Option<String>)
    requires
        forall|j: int| 0 <= j < list.len() ==> (#[trigger] list[j]).id != id,
    ensures
        with_batch(list, id, text) == list,
    decreases list.len(),
{
    let t = list.skip(1);
    if list.len() > 0 {
        assert forall|j: int| 0 <= j < t.len() implies (#[trigger] t[j]).id != id by {
            assert(t[j] == list[j + 1]);
        }
        lemma_with_batch_absent(t, id, text);
        assert(with_batch(list, id, text) =~= list);
    }
}

fn position(list: &Vec<VadSentence>, id: SentenceId) -> (r: Option<usize>)
    ensures
        match r {
            Some(i) => first_id_at(list@, id, i as int),
            None => forall|j: int| 0 <= j < list@.len() ==> (#[trigger] list@[j]).id != id,
        },
{
    let mut i: usize = 0;
    while i < list.len()
        invariant
            0 <= i <= list.len(),
            forall|j: int| 0 <= j < i ==> (#[trigger] list@[j]).id != id,
        decreases list.len() - i,
    {
        if list[i].id == id {
            return Some(i);
        }
        i = i + 1;
    }
    None
}

fn merge_one(list: &mut Vec<VadSentence>, s: &VadSentence)
    ensures
        final(list)@ == merged_one(old(list)@, *s),
{
    match position(list, s.id) {
        Some(i) => {
            proof {
                lemma_merged_at(list@, *s, i as int);
            }
            let mut next = s.clone();
            if list[i].batch_text.is_some() {
                next.batch_text = list[i].batch_text.clone();
            }
            list.set(i, next);
        },
        None => {
            proof {
                lemma_merged_absent(list@, *s);
            }
            list.push(s.clone());
        },
    }
}

/// Sets the batch text of the sentence with that id, where there is one.
pub fn fill_batch(list: &mut Vec<VadSentence>, id: SentenceId, text: Option<String>)
    ensures
        final(list)@ == with_batch(old(list)@, id, text),
{
    match position(list, id) {
        Some(i) => {
            proof {
                lemma_with_batch_at(list@, id, text, i as int);
            }
            let mut next = list[i].clone();
            next.batch_text = text;
            list.set(i, next);
        },
        None => {
            proof {
                lemma_with_batch_absent(list@, id, text);
            }
        },
    }
}

/// The sentences known of a paragraph; none where it is not open.
pub open spec fn known(open: OpenSentences, id: ParagraphId) -> Seq<VadSentence> {
    if open.contains_key(id) {
        open[id]
    } else {
        Seq::empty()
    }
}

impl Turns {
    /// No paragraph open.
    pub fn new() -> (r: Self)
        ensures
            r@ == Map::<ParagraphId, Seq<VadSentence>>::empty(),
    {
        let r = Turns { open_sents: HashMap::new() };
        proof {
            assert(r@ =~= Map::empty());
        }
        r
    }

    fn take(&mut self, id: ParagraphId) -> (r: Option<Vec<VadSentence>>)
        ensures
            final(self)@ == old(self)@.remove(id),
            r is Some == old(self)@.contains_key(id),
            r matches Some(v) ==> v@ == old(self)@[id],
    {
        let r = self.open_sents.remove(&id);
        proof {
            assert(self@ =~= old(self)@.remove(id));
        }
        r
    }

    fn put(&mut self, id: ParagraphId, list: Vec<VadSentence>)
        ensures
            final(self)@ == old(self)@.insert(id, list@),
    {
        let _ = self.open_sents.insert(id, list);
        proof {
            assert(self@ =~= old(self)@.insert(id, list@));
        }
    }

    /// A sentence ended; `sentences` are all of its paragraph. A batch pass starts for the last
    /// of them alone, and the list of the paragraph is brought up to date without losing a batch
    /// text that has come in.
    pub fn on_stage1_batch(
        &mut self,
        paragraph_id: ParagraphId,
        sentences: &Vec<VadSentence>,
        sr: u32,
    ) -> (r: Option<MainAction>)
        ensures
            final(self)@ == old(self)@.insert(
                paragraph_id,
                merged(known(old(self)@, paragraph_id), sentences@),
            ),
            sentences@.len() == 0 ==> r is None,
            sentences@.len() > 0 ==> r == Some(
                MainAction::SentenceTask {
                    paragraph_id,
                    sentence_id: sentences@.last().id,
                    audio_id: sentences@.last().audio_id,
                    sr,
                },
            ),
    {
        let mut list: Vec<VadSentence> = match self.take(paragraph_id) {
            Some(v) => v,
            None => Vec::new(),
        };
        let ghost before = known(old(self)@, paragraph_id);
        proof {
            assert(list@ =~= before);
        }
        let mut i: usize = 0;
        while i < sentences.len()
            invariant
                0 <= i <= sentences.len(),
                list@ == merged(before, sentences@.take(i as int)),
            decreases sentences.len() - i,
        {
            proof {
                assert(sentences@.take(i + 1).drop_last() =~= sentences@.take(i as int));
            }
            merge_one(&mut list, &sentences[i]);
            i = i + 1;
        }
        proof {
            assert(sentences@.take(sentences@.len() as int) =~= sentences@);
        }
        self.put(paragraph_id, list);
        proof {
            assert(self@ =~= old(self)@.insert(paragraph_id, merged(before, sentences@)));
        }
        let n: usize = sentences.len();
        if n == 0 {
            None
        } else {
            Some(
                MainAction::SentenceTask {
                    paragraph_id,
                    sentence_id: sentences[n - 1].id,
                    audio_id: sentences[n - 1].audio_id,
                    sr,
                },
            )
        }
    }

    /// An event of the recognition. Fragments go straight through; a closed paragraph is
    /// announced before its completion starts.
    pub fn on_stage1(&mut self, ev: Stage1Event) -> (r: Vec<MainAction>)
        ensures
            match ev {
                Stage1Event::StreamFragment { paragraph_id, sentence_id, text, at_us } => {
                    &&& final(self)@ == old(self)@
                    &&& r@ == seq![
                        MainAction::Emit(
                            TurnEvent::StreamFragment { paragraph_id, sentence_id, text, at_us },
                        ),
                    ]
                },
                Stage1Event::Batch { paragraph_id, sentences, sr } => {
                    &&& final(self)@ == old(self)@.insert(
                        paragraph_id,
                        merged(known(old(self)@, paragraph_id), sentences@),
                    )
                    &&& sentences@.len() == 0 ==> r@.len() == 0
                    &&& sentences@.len() > 0 ==> r@ == seq![
                        MainAction::SentenceTask {
                            paragraph_id,
                            sentence_id: sentences@.last().id,
                            audio_id: sentences@.last().audio_id,
                            sr,
                        },
                    ]
                },
                Stage1Event::ParagraphEdge { paragraph, sr } => {
                    &&& final(self)@ == old(self)@.remove(paragraph.id)
                    &&& r@ == seq![
                        MainAction::Emit(TurnEvent::ParagraphClosed { paragraph_id: paragraph.id }),
                        MainAction::ParagraphTask { paragraph, sr },
                    ]
                },
            },
    {
        let mut actions: Vec<MainAction> = Vec::new();
        match ev {
            Stage1Event::StreamFragment { paragraph_id, sentence_id, text, at_us } => {
                actions.push(
                    MainAction::Emit(
                        TurnEvent::StreamFragment { paragraph_id, sentence_id, text, at_us },
                    ),
                );
            },
            Stage1Event::Batch { paragraph_id, sentences, sr } => {
                match self.on_stage1_batch(paragraph_id, &sentences, sr) {
                    Some(a) => {
                        actions.push(a);
                    },
                    None => {},
                }
            },
            Stage1Event::ParagraphEdge { paragraph, sr } => {
                let id: ParagraphId = paragraph.id;
                let _ = self.take(id);
                actions.push(MainAction::Emit(TurnEvent::ParagraphClosed { paragraph_id: id }));
                actions.push(MainAction::ParagraphTask { paragraph, sr });
            },
        }
        actions
    }

    /// The batch text of a sentence came in. While its paragraph is open it is filled in, and a
    /// calibration of the whole paragraph follows; for a closed one nothing follows.
    pub fn on_turn_batch_sentence(
        &mut self,
        paragraph_id: ParagraphId,
        sentence_id: SentenceId,
        text: &String,
    ) -> (r: Option<MainAction>)
        ensures
            r is Some == old(self)@.contains_key(paragraph_id),
            !old(self)@.contains_key(paragraph_id) ==> final(self)@ == old(self)@,
            old(self)@.contains_key(paragraph_id) ==> {
                let now = with_batch(old(self)@[paragraph_id], sentence_id, Some(*text));
                &&& final(self)@ == old(self)@.insert(paragraph_id, now)
                &&& r matches Some(MainAction::LiveCalibration {
                    paragraph_id: p,
                    up_to,
                    sentences,
                })
                &&& p == paragraph_id
                &&& up_to == sentence_id
                &&& sentences@ == now
            },
    {
        match self.take(paragraph_id) {
            Some(mut list) => {
                fill_batch(&mut list, sentence_id, Some(text.clone()));
                let sentences = clone_sentences(&list);
                self.put(paragraph_id, list);
                proof {
                    assert(self@ =~= old(self)@.insert(
                        paragraph_id,
                        with_batch(old(self)@[paragraph_id], sentence_id, Some(*text)),
                    ));
                }
                Some(MainAction::LiveCalibration { paragraph_id, up_to: sentence_id, sentences })
            },
            None => {
                proof {
                    assert(self@ =~= old(self)@);
                }
                None
            },
        }
    }

    /// An event of a finished task: a batch text may start a calibration, and every event goes on
    /// to the caller.
    pub fn on_turn(&mut self, ev: TurnEvent) -> (r: Vec<MainAction>)
        ensures
            r@.len() > 0,
            r@.last() == MainAction::Emit(ev),
            match ev {
                TurnEvent::BatchSentence { paragraph_id, sentence_id, text } => {
                    if old(self)@.contains_key(paragraph_id) {
                        let now = with_batch(old(self)@[paragraph_id], sentence_id, Some(text));
                        &&& final(self)@ == old(self)@.insert(paragraph_id, now)
                        &&& r@.len() == 2
                        &&& r@[0] matches MainAction::LiveCalibration {
                            paragraph_id: p,
                            up_to,
                            sentences,
                        }
                        &&& p == paragraph_id
                        &&& up_to == sentence_id
                        &&& sentences@ == now
                    } else {
                        final(self)@ == old(self)@ && r@.len() == 1
                    }
                },
                _ => final(self)@ == old(self)@ && r@.len() == 1,
            },
    {
        let mut actions: Vec<MainAction> = Vec::new();
        match &ev {
            TurnEvent::BatchSentence { paragraph_id, sentence_id, text } => {
                match self.on_turn_batch_sentence(*paragraph_id, *sentence_id, text) {
                    Some(a) => {
                        actions.push(a);
                    },
                    None => {},
                }
            },
            _ => {},
        }
        actions.push(MainAction::Emit(ev));
        actions
    }
}

proof fn lemma_merge_keeps_batch(list: Seq<VadSentence>, s: VadSentence, i: int)
    requires
        0 <= i < list.len(),
        list[i].batch_text is Some,
    ensures
        i < merged_one(list, s).len(),
        merged_one(list, s)[i].id == list[i].id,
        merged_one(list, s)[i].batch_text == list[i].batch_text,
    decreases list.len(),
{
    if list[0].id == s.id {
        if i > 0 {
            assert(merged_one(list, s)[i] == list.skip(1)[i - 1]);
        }
    } else if i > 0 {
        lemma_merge_keeps_batch(list.skip(1), s, i - 1);
        assert(merged_one(list, s)[i] == merged_one(list.skip(1), s)[i - 1]);
    }
}

proof fn lemma_merge_keeps_ids(list: Seq<VadSentence>, s: VadSentence, i: int)
    requires
        0 <= i < list.len(),
    ensures
        i < merged_one(list, s).len(),
        merged_one(list, s)[i].id == list[i].id,
    decreases list.len(),
{
    if list[0].id == s.id {
        if i > 0 {
            assert(merged_one(list, s)[i] == list.skip(1)[i - 1]);
        }
    } else if i > 0 {
        lemma_merge_keeps_ids(list.skip(1), s, i - 1);
        assert(merged_one(list, s)[i] == merged_one(list.skip(1), s)[i - 1]);
    }
}

proof fn lemma_merge_holds(list: Seq<VadSentence>, s: VadSentence)
    ensures
        exists|i: int|
            0 <= i < merged_one(list, s).len() && (#[trigger] merged_one(list, s)[i]).id == s.id,
    decreases list.len(),
{
    if list.len() == 0 || list[0].id == s.id {
        assert(merged_one(list, s)[0].id == s.id);
    } else {
        lemma_merge_holds(list.skip(1), s);
        let i = choose|i: int|
            0 <= i < merged_one(list.skip(1), s).len() && (#[trigger] merged_one(
                list.skip(1),
                s,
            )[i]).id == s.id;
        assert(merged_one(list, s)[i + 1].id == s.id);
    }
}

/// Law: a batch text that has come in is never lost to a later snapshot of the paragraph, which
/// does not carry it.
pub proof fn law_batch_texts_survive_snapshots(
    list: Seq<VadSentence>,
    snapshot: Seq<VadSentence>,
    i: int,
)
    requires
        0 <= i < list.len(),
        list[i].batch_text is Some,
    ensures
        i < merged(list, snapshot).len(),
        merged(list, snapshot)[i].id == list[i].id,
        merged(list, snapshot)[i].batch_text == list[i].batch_text,
    decreases snapshot.len(),
{
    if snapshot.len() > 0 {
        law_batch_texts_survive_snapshots(list, snapshot.drop_last(), i);
        lemma_merge_keeps_batch(merged(list, snapshot.drop_last()), snapshot.last(), i);
    }
}

/// Law: the calibration that a batch text starts is given that text, and every other sentence as
/// it was.
pub proof fn law_a_calibration_sees_its_batch_text(
    list: Seq<VadSentence>,
    id: SentenceId,
    text: Option<String>,
    i: int,
)
    requires
        first_id_at(list, id, i),
    ensures
        with_batch(list, id, text).len() == list.len(),
        with_batch(list, id, text)[i] == (VadSentence { batch_text: text, ..list[i] }),
        forall|j: int|
            0 <= j < list.len() && j != i ==> #[trigger] with_batch(list, id, text)[j] == list[j],
{
    lemma_with_batch_at(list, id, text, i);
}

/// Law: once a paragraph is closed, a batch text that comes in late starts no calibration of it,
/// so that its final text is the last word; the other paragraphs stay as they were.
pub proof fn law_a_closed_paragraph_is_calibrated_no_more(
    open: OpenSentences,
    closed: ParagraphId,
    other: ParagraphId,
)
    requires
        other != closed,
    ensures
        !open.remove(closed).contains_key(closed),
        open.remove(closed).contains_key(other) == open.contains_key(other),
        known(open.remove(closed), other) == known(open, other),
{
}

/// Law: every sentence of a snapshot is known of its paragraph afterwards.
pub proof fn law_snapshots_add_sentences(list: Seq<VadSentence>, snapshot: Seq<VadSentence>, j: int)
    requires
        0 <= j < snapshot.len(),
    ensures
        exists|i: int|
            0 <= i < merged(list, snapshot).len() && (#[trigger] merged(list, snapshot)[i]).id
                == snapshot[j].id,
    decreases snapshot.len(),
{
    let before = merged(list, snapshot.drop_last());
    if j == snapshot.len() - 1 {
        lemma_merge_holds(before, snapshot.last());
    } else {
        law_snapshots_add_sentences(list, snapshot.drop_last(), j);
        let i = choose|i: int|
            0 <= i < before.len() && (#[trigger] before[i]).id == snapshot.drop_last()[j].id;
        lemma_merge_keeps_ids(before, snapshot.last(), i);
        assert(merged(list, snapshot)[i].id == snapshot[j].id);
    }
}

/// Law: a sentence that is known is replaced where it stands, by the newer one but for a batch
/// text it already had; one that is not known comes last. No other sentence is touched.
pub proof fn law_a_snapshot_replaces_in_place(list: Seq<VadSentence>, s: VadSentence, i: int)
    ensures
        first_id_at(list, s.id, i) ==> {
            let m = merged(list, seq![s]);
            &&& m.len() == list.len()
            &&& m[i].id == s.id
            &&& m[i].audio_id == s.audio_id
            &&& m[i].start_us == s.start_us
            &&& m[i].end_us == s.end_us
            &&& m[i].streaming_text == s.streaming_text
            &&& list[i].batch_text is Some ==> m[i].batch_text == list[i].batch_text
            &&& list[i].batch_text is None ==> m[i].batch_text == s.batch_text
            &&& forall|j: int| 0 <= j < list.len() && j != i ==> #[trigger] m[j] == list[j]
        },
        (forall|j: int| 0 <= j < list.len() ==> (#[trigger] list[j]).id != s.id) ==> merged(
            list,
            seq![s],
        ) == list.push(s),
{
    let one = seq![s];
    assert(one.drop_last() =~= Seq::<VadSentence>::empty());
    assert(merged(list, Seq::<VadSentence>::empty()) == list);
    assert(merged(list, one) == merged_one(list, s));
    if first_id_at(list, s.id, i) {
        lemma_merged_at(list, s, i);
    }
    if forall|j: int| 0 <= j < list.len() ==> (#[trigger] list[j]).id != s.id {
        lemma_merged_absent(list, s);
    }
}

/// Law: a snapshot of sentences that are all new, each with an id of its own, is taken over as it
/// is, in its order.
pub proof fn law_new_sentences_come_in_order(list: Seq<VadSentence>, snapshot: Seq<VadSentence>)
    requires
        forall|j: int, k: int|
            0 <= j < list.len() && 0 <= k < snapshot.len() ==> (#[trigger] list[j]).id != (
            #[trigger] snapshot[k]).id,
        forall|j: int, k: int|
            0 <= j < k < snapshot.len() ==> (#[trigger] snapshot[j]).id != (#[trigger] snapshot[k]).id,
    ensures
        merged(list, snapshot) == list + snapshot,
    decreases snapshot.len(),
{
    if snapshot.len() == 0 {
        assert(list + snapshot =~= list);
    } else {
        let rest = snapshot.drop_last();
        let s = snapshot.last();
        assert forall|j: int, k: int|
            0 <= j < list.len() && 0 <= k < rest.len() implies (#[trigger] list[j]).id != (
        #[trigger] rest[k]).id by {
            assert(rest[k] == snapshot[k]);
        }
        assert forall|j: int, k: int| 0 <= j < k < rest.len() implies (#[trigger] rest[j]).id != (
        #[trigger] rest[k]).id by {
            assert(rest[j] == snapshot[j] && rest[k] == snapshot[k]);
        }
        law_new_sentences_come_in_order(list, rest);
        let m = list + rest;
        assert forall|j: int| 0 <= j < m.len() implies (#[trigger] m[j]).id != s.id by {
            if j < list.len() {
                assert(m[j] == list[j]);
                assert(snapshot[snapshot.len() - 1] == s);
            } else {
                assert(m[j] == snapshot[j - list.len()]);
                assert(snapshot[snapshot.len() - 1] == s);
            }
        }
        lemma_merged_absent(m, s);
        assert(merged_one(m, s) =~= m.push(s));
        assert(m.push(s) =~= list + snapshot);
    }
}

/// Law: a batch text for a sentence that is not known changes nothing.
pub proof fn law_an_unknown_batch_text_changes_nothing(
    list: Seq<VadSentence>,
    id: SentenceId,
    text: Option<String>,
)
    requires
        forall|j: int| 0 <= j < list.len() ==> (#[trigger] list[j]).id != id,
    ensures
        with_batch(list, id, text) == list,
{
    lemma_with_batch_absent(list, id, text);
}

/// Law: a closed paragraph is announced before it is completed, once, and it is calibrated no more
/// on the way.
pub proof fn law_closing_is_announced_first(
    turns: &mut Turns,
    paragraph: VadParagraph,
    sr: u32,
    r: Vec<MainAction>,
)
    requires
        call_ensures(Turns::on_stage1, (turns, Stage1Event::ParagraphEdge { paragraph, sr }), r),
    ensures
        r@.len() == 2,
        r@[0] == MainAction::Emit(TurnEvent::ParagraphClosed { paragraph_id: paragraph.id }),
        r@[1] == (MainAction::ParagraphTask { paragraph, sr }),
        !final(turns)@.contains_key(paragraph.id),
{
}

/// Law: live text goes straight to the caller, as it is, and starts nothing.
pub proof fn law_live_text_goes_straight_through(
    turns: &mut Turns,
    paragraph_id: ParagraphId,
    sentence_id: SentenceId,
    text: String,
    at_us: i64,
    r: Vec<MainAction>,
)
    requires
        call_ensures(
            Turns::on_stage1,
            (turns, Stage1Event::StreamFragment { paragraph_id, sentence_id, text, at_us }),
            r,
        ),
    ensures
        r@ == seq![
            MainAction::Emit(
                TurnEvent::StreamFragment { paragraph_id, sentence_id, text, at_us },
            ),
        ],
        final(turns)@ == old(turns)@,
{
}

/// Law: a new sentence starts one batch pass, over that sentence, the last of its paragraph; the
/// sentences of other paragraphs stay as they are.
pub proof fn law_a_new_sentence_starts_its_pass(
    turns: &mut Turns,
    paragraph_id: ParagraphId,
    sentences: Vec<VadSentence>,
    sr: u32,
    r: Vec<MainAction>,
    other: ParagraphId,
)
    requires
        call_ensures(
            Turns::on_stage1,
            (turns, Stage1Event::Batch { paragraph_id, sentences, sr }),
            r,
        ),
        sentences@.len() > 0,
        other != paragraph_id,
    ensures
        r@.len() == 1,
        r@[0] matches MainAction::SentenceTask { paragraph_id: p, sentence_id, audio_id, sr: rate }
            && p == paragraph_id && sentence_id == sentences@[sentences@.len() - 1].id && audio_id
            == sentences@[sentences@.len() - 1].audio_id && rate == sr,
        final(turns)@.contains_key(paragraph_id),
        known(final(turns)@, other) == known(old(turns)@, other),
{
}

/// Law: every finished task is told to the caller, last of all that it leads to; a batch text of an
/// open paragraph first starts one calibration of that paragraph, with the text in it.
pub proof fn law_every_finished_task_is_told(
    turns: &mut Turns,
    ev: TurnEvent,
    r: Vec<MainAction>,
    i: int,
)
    requires
        call_ensures(Turns::on_turn, (turns, ev), r),
    ensures
        r@.len() >= 1,
        r@[r@.len() - 1] == MainAction::Emit(ev),
        r@.len() == 1 || ev is BatchSentence,
        ev matches TurnEvent::BatchSentence { paragraph_id, sentence_id, text } ==> {
            &&& r@.len() == (if old(turns)@.contains_key(paragraph_id) {
                2int
            } else {
                1int
            })
            &&& old(turns)@.contains_key(paragraph_id) && first_id_at(
                old(turns)@[paragraph_id],
                sentence_id,
                i,
            ) ==> (r@[0] matches MainAction::LiveCalibration { paragraph_id: p, up_to, sentences }
                && p == paragraph_id && up_to == sentence_id && sentences@.len() == old(
                turns,
            )@[paragraph_id].len() && sentences@[i].batch_text == Some(text))
        },
{
    if let TurnEvent::BatchSentence { paragraph_id, sentence_id, text } = ev {
        if old(turns)@.contains_key(paragraph_id) && first_id_at(
            old(turns)@[paragraph_id],
            sentence_id,
            i,
        ) {
            law_a_calibration_sees_its_batch_text(
                old(turns)@[paragraph_id],
                sentence_id,
                Some(text),
                i,
            );
        }
    }
}

} // verus!
