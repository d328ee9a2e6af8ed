//! The router as a calibrator of single utterances, with a rolling window of what it made of the
//! ones before.

use vstd::prelude::*;
use vstd::string::*;

use crate::calibrator::opt_str;
use crate::context::{entry, law_window_is_bounded, paired, ContextWindow, WindowView};
use crate::decision::{task_members, Decision, DecisionView};
use crate::models::{LlmProvider, ProviderError};
use crate::prompt::{clone_words, pair_views};
use crate::router::decision::{object_in, parse_decision, routed};
use crate::router::prompt::{
    few_shot_block, hotword_block, PromptBuilder, PromptView, COMMON_PATTERNS, CONTEXT_INSTRUCTION,
    CORRECTION_STRATEGY, OUTPUT, ROLE_TASK,
};
use crate::text::{blank, is_blank, trimmed, views};

verus! {

/// A finished utterance: the batch text and the streaming text of one stretch of speech.
#[derive(Debug)]
pub struct Utterance {
    pub seq: u64,
    pub raw_text: String,
    pub streaming_text: String,
    pub duration_us: u64,
    pub at_us: i64,
}

impl Utterance {
    /// The batch text, or the streaming text where it is blank.
    pub open spec fn routed_text(&self) -> Seq<char> {
        if is_blank(self.raw_text@) {
            self.streaming_text@
        } else {
            self.raw_text@
        }
    }

    /// The text to go by.
    pub fn route_text(&self) -> (r: &str)
        ensures
            r@ == self.routed_text(),
    {
        if blank(self.raw_text.as_str()) {
            self.streaming_text.as_str()
        } else {
            self.raw_text.as_str()
        }
    }
}

/// The prompt for one utterance.
pub open spec fn route_prompt(
    raw: Seq<char>,
    context: Option<Seq<char>>,
    hotwords: Seq<Seq<char>>,
    few_shot: Option<Seq<(Seq<char>, Seq<char>)>>,
) -> PromptView {
    let bare = PromptView { hotwords, ..PromptView::bare(raw) };
    let with_context = match context {
        Some(c) => if is_blank(c) {
            bare
        } else {
            PromptView { context: Some(trimmed(c)), ..bare }
        },
        None => bare,
    };
    PromptView { few_shot, ..with_context }
}

/// Pairs of texts as values, where there are any.
pub open spec fn opt_pairs(v: Option<Vec<(String, String)>>) -> Option<Seq<(Seq<char>, Seq<char>)>> {
    match v {
        Some(p) => Some(pair_views(p@)),
        None => None,
    }
}

/// What the model is told of one utterance. Without a list of examples it gets the default ones,
/// with an empty one it gets none.
pub fn route_request(
    raw_text: &str,
    context: Option<&str>,
    hotwords: &[String],
    few_shot: &Option<Vec<(String, String)>>,
) -> (r: (String, String))
    ensures
        r.0@ == route_prompt(
            raw_text@,
            opt_str(context),
            views(hotwords@),
            opt_pairs(*few_shot),
        ).system(),
        r.1@ == route_prompt(
            raw_text@,
            opt_str(context),
            views(hotwords@),
            opt_pairs(*few_shot),
        ).user(),
{
    let mut pb = PromptBuilder::new(raw_text).hotwords(hotwords);
    match context {
        Some(c) => {
            pb = pb.context(c);
        },
        None => {},
    }
    match few_shot {
        Some(examples) => {
            pb = pb.few_shot(examples.as_slice());
        },
        None => {},
    }
    pb.build()
}

/// The router's model with its window, hot words and examples.
pub struct RouterStage2Calibrator<R: LlmProvider> {
    router: R,
    ctx_win: ContextWindow,
    hotwords: Vec<String>,
    /// `None` stands for the default examples, an empty list for none at all.
    few_shot: Option<Vec<(String, String)>>,
}

/// The calibrator as a value.
pub struct RouterView<R> {
    pub router: R,
    pub window: WindowView,
    pub hotwords: Seq<Seq<char>>,
    pub few_shot: Option<Seq<(Seq<char>, Seq<char>)>>,
}

impl<R: LlmProvider> View for RouterStage2Calibrator<R> {
    type V = RouterView<R>;

    closed spec fn view(&self) -> RouterView<R> {
        RouterView {
            router: self.router,
            window: self.ctx_win@,
            hotwords: views(self.hotwords@),
            few_shot: opt_pairs(self.few_shot),
        }
    }
}

/// How many pairs the window keeps by default.
pub const DEFAULT_CONTEXT: usize = 4;

/// The window as context: nothing while it is empty.
pub open spec fn window_context(w: WindowView) -> Option<Seq<char>> {
    if w.entries.len() == 0 {
        None
    } else {
        Some(paired(w.entries))
    }
}

/// A text that may be missing, as an answer.
pub open spec fn answer_text(answer: Result<String, ProviderError>) -> Seq<char> {
    match answer {
        Ok(t) => t@,
        Err(_) => Seq::empty(),
    }
}

/// The decision that an answer gives for an utterance; no answer counts as an empty one.
pub open spec fn decision_for(answer: Seq<char>, route: Seq<char>) -> DecisionView {
    routed(object_in(answer), task_members(object_in(answer)), route)
}

impl<R: LlmProvider> RouterStage2Calibrator<R> {
    /// A calibrator over `router`, without examples of its own.
    pub fn new(router: R, hotwords: Vec<String>) -> (r: Self)
        ensures
            r@ == (RouterView {
                router,
                window: WindowView { entries: Seq::empty(), cap: DEFAULT_CONTEXT as int },
                hotwords: views(hotwords@),
                few_shot: None,
            }),
    {
        RouterStage2Calibrator {
            router,
            ctx_win: ContextWindow::new(DEFAULT_CONTEXT),
            hotwords,
            few_shot: None,
        }
    }

    /// With an empty window for `cap` pairs.
    pub fn with_context_capacity(self, cap: usize) -> (r: Self)
        ensures
            r@ == (RouterView {
                window: WindowView { entries: Seq::empty(), cap: cap as int },
                ..self@
            }),
    {
        RouterStage2Calibrator { ctx_win: ContextWindow::new(cap), ..self }
    }

    /// With examples in place of the default ones; an empty list switches them off.
    pub fn with_few_shot(self, examples: Vec<(String, String)>) -> (r: Self)
        ensures
            r@ == (RouterView { few_shot: Some(pair_views(examples@)), ..self@ }),
    {
        RouterStage2Calibrator { few_shot: Some(examples), ..self }
    }

    /// The hot words from now on; the next call already goes by them.
    pub fn set_hotwords(&mut self, words: &[String])
        ensures
            final(self)@ == (RouterView { hotwords: views(words@), ..old(self)@ }),
    {
        self.hotwords = clone_words(words);
    }

    /// What the model is told of an utterance now.
    pub fn request(&self, utterance: &Utterance) -> (r: (String, String))
        ensures
            r.0@ == route_prompt(
                utterance.routed_text(),
                window_context(self@.window),
                self@.hotwords,
                self@.few_shot,
            ).system(),
            r.1@ == route_prompt(
                utterance.routed_text(),
                window_context(self@.window),
                self@.hotwords,
                self@.few_shot,
            ).user(),
    {
        let route = utterance.route_text();
        if self.ctx_win.is_empty() {
            route_request(route, None, self.hotwords.as_slice(), &self.few_shot)
        } else {
            let pairs = self.ctx_win.as_pairs();
            route_request(
                route,
                Some(pairs.as_str()),
                self.hotwords.as_slice(),
                &self.few_shot,
            )
        }
    }

    /// Takes the model's answer for an utterance: the decision, which also rolls the window.
    pub fn conclude(&mut self, utterance: &Utterance, answer: &str) -> (r: Decision)
        ensures
            r@ == decision_for(answer@, utterance.routed_text()),
            exists|t: u64|
                final(self)@ == (RouterView {
                    window: old(self)@.window.pushed(
                        #[trigger] entry(
                            utterance.routed_text(),
                            r@.calibrated_text,
                            r@.intent,
                            t,
                        ),
                    ),
                    ..old(self)@
                }),
    {
        let route = utterance.route_text();
        let decision = parse_decision(answer, route);
        let ghost before = self.ctx_win@;
        self.ctx_win.push(route, decision.calibrated_text.as_str(), decision.intent.as_str());
        proof {
            let t = choose|t: u64|
                self.ctx_win@ == before.pushed(
                    #[trigger] entry(
                        utterance.routed_text(),
                        decision@.calibrated_text,
                        decision@.intent,
                        t,
                    ),
                );
            assert(self.ctx_win@ == before.pushed(
                entry(utterance.routed_text(), decision@.calibrated_text, decision@.intent, t),
            ));
        }
        decision
    }

    /// Asks the model about an utterance and takes its answer; where it gives none, the utterance
    /// itself stands as chat.
    pub fn calibrate(&mut self, utterance: &Utterance) -> (r: Decision)
        ensures
            exists|system: &str, user: &str, answer: Result<String, ProviderError>|
                {
                    let p = route_prompt(
                        utterance.routed_text(),
                        window_context(old(self)@.window),
                        old(self)@.hotwords,
                        old(self)@.few_shot,
                    );
                    &&& system@ == p.system()
                    &&& user@ == p.user()
                    &&& #[trigger] call_ensures(
                        R::complete,
                        (&old(self)@.router, system, user),
                        answer,
                    )
                    &&& r@ == decision_for(answer_text(answer), utterance.routed_text())
                },
            exists|t: u64|
                final(self)@ == (RouterView {
                    window: old(self)@.window.pushed(
                        #[trigger] entry(
                            utterance.routed_text(),
                            r@.calibrated_text,
                            r@.intent,
                            t,
                        ),
                    ),
                    ..old(self)@
                }),
    {
        let (system, user) = self.request(utterance);
        let s = system.as_str();
        let u = user.as_str();
        let answer = self.router.complete(s, u);
        proof {
            assert(call_ensures(R::complete, (&old(self)@.router, s, u), answer));
        }
        match answer {
            Ok(t) => self.conclude(utterance, t.as_str()),
            Err(_) => {
                let empty = String::new();
                self.conclude(utterance, empty.as_str())
            },
        }
    }
}

/// Law: with an empty list of examples the system text holds no block of them: the fixed blocks,
/// the hot words and the instruction for the recent dialogue are all that it is made of.
pub proof fn law_no_examples_where_switched_off(
    raw: Seq<char>,
    context: Option<Seq<char>>,
    hotwords: Seq<Seq<char>>,
)
    ensures
        ({
            let p = route_prompt(raw, context, hotwords, Some(Seq::empty()));
            p.system() == ROLE_TASK@ + CORRECTION_STRATEGY@ + COMMON_PATTERNS@ + hotword_block(
                hotwords,
            ) + (if p.context is Some {
                CONTEXT_INSTRUCTION@
            } else {
                Seq::empty()
            }) + OUTPUT@
        }),
{
    let p = route_prompt(raw, context, hotwords, Some(Seq::empty()));
    let fixed = ROLE_TASK@ + CORRECTION_STRATEGY@ + COMMON_PATTERNS@;
    assert(fixed + few_shot_block(Seq::empty()) =~= fixed);
    let body = fixed + hotword_block(hotwords) + (if p.context is Some {
        CONTEXT_INSTRUCTION@
    } else {
        Seq::empty()
    });
    assert(body + Seq::<char>::empty() =~= body);
}

/// Law: the text to route is the batch text wherever it says something, and the streaming text
/// otherwise.
pub proof fn law_the_batch_text_goes_first(u: Utterance)
    ensures
        !is_blank(u.raw_text@) ==> u.routed_text() == u.raw_text@,
        is_blank(u.raw_text@) ==> u.routed_text() == u.streaming_text@,
{
}

/// Law: the context goes along trimmed, and only where it says something; the text, the hot words
/// and the examples go along as they are.
pub proof fn law_the_request_is_what_was_given(
    raw: Seq<char>,
    context: Option<Seq<char>>,
    hotwords: Seq<Seq<char>>,
    few_shot: Option<Seq<(Seq<char>, Seq<char>)>>,
)
    ensures
        ({
            let p = route_prompt(raw, context, hotwords, few_shot);
            &&& p.raw == raw
            &&& p.hotwords == hotwords
            &&& p.few_shot == few_shot
            &&& p.streaming_ref is None
            &&& context matches Some(c) ==> !is_blank(c) ==> p.context == Some(trimmed(c))
            &&& (context matches Some(c) ==> is_blank(c)) ==> p.context is None
        }),
{
}

/// Law: an empty window gives no context; another one gives its entries.
pub proof fn law_the_window_is_the_context(w: WindowView)
    ensures
        w.entries.len() == 0 <==> window_context(w) is None,
        w.entries.len() > 0 ==> window_context(w) == Some(paired(w.entries)),
{
}

/// Law: without an answer the utterance itself is chat, word for word.
pub proof fn law_no_answer_is_chat(e: ProviderError, route: Seq<char>)
    ensures
        ({
            let d = decision_for(answer_text(Err(e)), route);
            &&& d.calibrated_text == route
            &&& d.intent == "chat"@
            &&& d.task is None
        }),
{
    crate::text::law_places_are_first_and_last(Seq::<char>::empty(), '{');
}

/// Law: an answer is taken as the model gave it.
pub proof fn law_the_answer_is_read_whole(t: String, route: Seq<char>)
    ensures
        decision_for(answer_text(Ok(t)), route) == decision_for(t@, route),
{
}

/// Law: what was decided is remembered for the next utterance: the text that was routed, what it
/// was calibrated to and its intent.
pub proof fn law_a_decision_is_remembered<R: LlmProvider>(
    c: &mut RouterStage2Calibrator<R>,
    u: Utterance,
    answer: &str,
    r: Decision,
)
    requires
        call_ensures(RouterStage2Calibrator::<R>::conclude, (c, &u, answer), r),
        old(c)@.window.cap > 0,
    ensures
        ({
            let n = final(c)@.window.entries.len() as int;
            let e = final(c)@.window.entries[n - 1];
            &&& n > 0
            &&& e.raw == u.routed_text()
            &&& e.calibrated == r.calibrated_text@
            &&& e.intent == r.intent@
            &&& final(c)@.hotwords == old(c)@.hotwords
            &&& final(c)@.few_shot == old(c)@.few_shot
        }),
{
    let t = choose|t: u64|
        final(c)@ == (RouterView {
            window: old(c)@.window.pushed(
                #[trigger] entry(u.routed_text(), r@.calibrated_text, r@.intent, t),
            ),
            ..old(c)@
        });
    law_window_is_bounded(
        old(c)@.window,
        entry(u.routed_text(), r@.calibrated_text, r@.intent, t),
    );
}

/// Law: the model is asked about the utterance itself: one that answers every question holding it,
/// in its envelope, with one text has that text decide.
pub proof fn law_the_model_is_asked_about_the_utterance<R: LlmProvider>(
    c: &mut RouterStage2Calibrator<R>,
    u: Utterance,
    r: Decision,
    word: Seq<char>,
)
    requires
        call_ensures(RouterStage2Calibrator::<R>::calibrate, (c, &u), r),
        forall|s: &str, q: &str, a: Result<String, ProviderError>| #[trigger]
            call_ensures(R::complete, (&old(c)@.router, s, q), a) && (exists|
                x: Seq<char>,
                y: Seq<char>,
            |
                q@ == #[trigger] (x + ("<raw_transcript>\n"@ + u.routed_text()
                    + "\n</raw_transcript>"@) + y)) ==> (a matches Ok(t) && t@ == word),
    ensures
        r@ == decision_for(word, u.routed_text()),
{
    let p = route_prompt(
        u.routed_text(),
        window_context(old(c)@.window),
        old(c)@.hotwords,
        old(c)@.few_shot,
    );
    crate::router::prompt::law_transcript_stands_in_its_envelope(p);
    law_the_request_is_what_was_given(
        u.routed_text(),
        window_context(old(c)@.window),
        old(c)@.hotwords,
        old(c)@.few_shot,
    );
}

} // verus!
