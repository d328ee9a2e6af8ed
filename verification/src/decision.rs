//! What a model decided about an utterance, read from its answer.

use vstd::prelude::*;
use vstd::string::*;

use crate::json::{
    find_item, find_text, first_named, item_in, json_members, law_members_are_found_by_name,
    member_views, opt_members, parse_members, text_in, ItemView, JsonItem, Members,
};
use crate::text::{
    chars_of, find_char, first_at, first_index, has_prefix, has_suffix, strip_prefix, strip_suffix,
    trim, trimmed,
};

verus! {

/// A piece of work that the user asked for.
#[derive(Clone, Debug)]
pub struct TaskSpec {
    pub capability: String,
    pub brief: String,
}

/// The calibrated text, the intent, the reply and the task of an utterance.
#[derive(Clone, Debug)]
pub struct Decision {
    pub calibrated_text: String,
    /// `chat` or `task`.
    pub intent: String,
    pub reply: String,
    pub task: Option<TaskSpec>,
}

/// A decision as a value.
pub struct DecisionView {
    pub calibrated_text: Seq<char>,
    pub intent: Seq<char>,
    pub reply: Seq<char>,
    /// Capability and brief.
    pub task: Option<(Seq<char>, Seq<char>)>,
}

impl View for Decision {
    type V = DecisionView;

    open spec fn view(&self) -> DecisionView {
        DecisionView {
            calibrated_text: self.calibrated_text@,
            intent: self.intent@,
            reply: self.reply@,
            task: match self.task {
                Some(t) => Some((t.capability@, t.brief@)),
                None => None,
            },
        }
    }
}

/// What stands between a fence that opens with `open` and a closing fence.
pub open spec fn fenced(s: Seq<char>, open: Seq<char>) -> Option<Seq<char>> {
    if has_prefix(s, open) && has_suffix(s.skip(open.len() as int), "```"@) {
        let rest = s.skip(open.len() as int);
        Some(rest.take(rest.len() - "```"@.len()))
    } else {
        None
    }
}

/// A model's answer without the white space and the fence around it.
pub open spec fn unfenced(raw: Seq<char>) -> Seq<char> {
    let s = trimmed(raw);
    match fenced(s, "```json"@) {
        Some(inner) => trimmed(inner),
        None => match fenced(s, "```"@) {
            Some(inner) => trimmed(inner),
            None => s,
        },
    }
}

/// How far a walk through JSON has come: how many braces are open, and whether it stands within a
/// string, and there behind a backslash.
pub struct Walk {
    pub depth: int,
    pub quoted: bool,
    pub escaped: bool,
}

impl Walk {
    /// Before the first brace.
    pub open spec fn start() -> Walk {
        Walk { depth: 0, quoted: false, escaped: false }
    }

    /// One character on. Within a string braces do not count, and an escaped quote does not end
    /// it.
    pub open spec fn next(self, c: char) -> Walk {
        if self.quoted {
            Walk {
                quoted: self.escaped || c != '"',
                escaped: !self.escaped && c == '\\',
                ..self
            }
        } else if c == '"' {
            Walk { quoted: true, ..self }
        } else if c == '{' {
            Walk { depth: self.depth + 1, ..self }
        } else if c == '}' {
            Walk { depth: self.depth - 1, ..self }
        } else {
            self
        }
    }
}

/// Where the walk that goes on from `i` first finds no brace open any more.
pub open spec fn closing(s: Seq<char>, i: int, w: Walk) -> Option<int>
    decreases s.len() - i,
{
    if i < 0 || i >= s.len() {
        None
    } else if w.next(s[i]).depth <= 0 {
        Some(i)
    } else {
        closing(s, i + 1, w.next(s[i]))
    }
}

/// The first object in a text: from the first opening brace to the one that closes it.
pub open spec fn first_object(s: Seq<char>) -> Option<Seq<char>> {
    match first_index(s, '{') {
        Some(a) => match closing(s, a, Walk::start()) {
            Some(b) => Some(s.subrange(a, b + 1)),
            None => None,
        },
        None => None,
    }
}

/// The JSON in a model's answer: its first object, or all of it but the fence where there is
/// none.
pub open spec fn json_part(raw: Seq<char>) -> Seq<char> {
    match first_object(unfenced(raw)) {
        Some(t) => t,
        None => unfenced(raw),
    }
}

/// The members of the first object in a model's answer, where there is one.
pub open spec fn answer_members(raw: Seq<char>) -> Option<Members> {
    match first_object(unfenced(raw)) {
        Some(t) => json_members(t),
        None => None,
    }
}

fn unfence<'a>(s: &'a str, open: &str) -> (r: Option<&'a str>)
    ensures
        match r {
            Some(t) => fenced(s@, open@) == Some(t@),
            None => fenced(s@, open@) is None,
        },
{
    match strip_prefix(s, open) {
        Some(rest) => strip_suffix(rest, "```"),
        None => None,
    }
}

fn unfence_answer(raw: &str) -> (r: &str)
    ensures
        r@ == unfenced(raw@),
{
    let s = trim(raw);
    match unfence(s, "```json") {
        Some(inner) => {
            return trim(inner);
        },
        None => {},
    }
    match unfence(s, "```") {
        Some(inner) => trim(inner),
        None => s,
    }
}

/// Where the object that opens at `start` is closed.
fn find_closing(cs: &Vec<char>, start: usize) -> (r: Option<usize>)
    ensures
        match r {
            Some(b) => closing(cs@, start as int, Walk::start()) == Some(b as int) && start <= b
                < cs@.len(),
            None => closing(cs@, start as int, Walk::start()) is None,
        },
{
    let mut depth: usize = 0;
    let mut quoted = false;
    let mut escaped = false;
    let mut i: usize = start;
    while i < cs.len()
        invariant
            start <= i,
            depth <= i - start,
            closing(cs@, start as int, Walk::start()) == closing(
                cs@,
                i as int,
                Walk { depth: depth as int, quoted, escaped },
            ),
        decreases cs.len() - i,
    {
        let c = cs[i];
        if quoted {
            quoted = escaped || c != '"';
            escaped = !escaped && c == '\\';
        } else if c == '"' {
            quoted = true;
        } else if c == '{' {
            depth = depth + 1;
        } else if c == '}' && depth > 0 {
            depth = depth - 1;
        }
        if depth == 0 {
            return Some(i);
        }
        i = i + 1;
    }
    None
}

/// The first object in a text.
fn find_object<'a>(s: &'a str) -> (r: Option<&'a str>)
    ensures
        match r {
            Some(t) => first_object(s@) == Some(t@),
            None => first_object(s@) is None,
        },
{
    let cs = chars_of(s);
    // The number of characters fits in a `usize`, and so does the end of any part.
    let _n: usize = cs.len();
    match find_char(&cs, '{') {
        Some(a) => match find_closing(&cs, a) {
            Some(b) => Some(s.substring_char(a, b + 1)),
            None => None,
        },
        None => None,
    }
}

/// The JSON in a model's answer.
pub fn extract_json(raw: &str) -> (r: String)
    ensures
        r@ == json_part(raw@),
{
    let s = unfence_answer(raw);
    match find_object(s) {
        Some(t) => t.to_owned(),
        None => s.to_owned(),
    }
}

/// A text, or what stands in for it.
pub open spec fn text_or(t: Option<Seq<char>>, default: Seq<char>) -> Seq<char> {
    match t {
        Some(s) => s,
        None => default,
    }
}

/// The members of the task, where it is an object.
pub open spec fn task_members(top: Option<Members>) -> Option<Members> {
    match item_in(top, "task"@) {
        Some(ItemView::Object(t)) => json_members(t),
        _ => None,
    }
}

/// The decision in the members of an answer. Where the calibrated text is missing or empty, the
/// fallback stands in; a missing intent is `chat`; a task that is there and not null is one,
/// with `write` and an empty brief for what it lacks.
pub open spec fn decided(
    top: Option<Members>,
    inner: Option<Members>,
    fallback: Seq<char>,
) -> DecisionView {
    DecisionView {
        calibrated_text: match text_in(top, "calibrated_text"@) {
            Some(t) => if t.len() > 0 {
                t
            } else {
                fallback
            },
            None => fallback,
        },
        intent: text_or(text_in(top, "intent"@), "chat"@),
        reply: text_or(text_in(top, "reply"@), ""@),
        task: match item_in(top, "task"@) {
            None | Some(ItemView::Null) => None,
            Some(_) => Some(
                (
                    text_or(text_in(inner, "capability"@), "write"@),
                    text_or(text_in(inner, "brief"@), ""@),
                ),
            ),
        },
    }
}

/// A text, or what stands in for it.
pub(crate) fn or_text(t: Option<&str>, default: &str) -> (r: String)
    ensures
        r@ == (match t {
            Some(s) => s@,
            None => default@,
        }),
{
    match t {
        Some(s) => s.to_owned(),
        None => default.to_owned(),
    }
}

/// The decision in the members of an answer and of its task.
pub fn decide(
    top: &Option<Vec<(String, JsonItem)>>,
    inner: &Option<Vec<(String, JsonItem)>>,
    fallback: &str,
) -> (r: Decision)
    ensures
        r@ == decided(opt_members(*top), opt_members(*inner), fallback@),
{
    let calibrated_text = match find_text(top, "calibrated_text") {
        Some(t) => if t.is_empty() {
            fallback.to_owned()
        } else {
            t.to_owned()
        },
        None => fallback.to_owned(),
    };
    let task = match find_item(top, "task") {
        None => None,
        Some(JsonItem::Null) => None,
        Some(_) => Some(
            TaskSpec {
                capability: or_text(find_text(inner, "capability"), "write"),
                brief: or_text(find_text(inner, "brief"), ""),
            },
        ),
    };
    Decision {
        calibrated_text,
        intent: or_text(find_text(top, "intent"), "chat"),
        reply: or_text(find_text(top, "reply"), ""),
        task,
    }
}

/// The members of the task of an answer, where it is an object.
pub(crate) fn parse_task(top: &Option<Vec<(String, JsonItem)>>) -> (r: Option<
    Vec<(String, JsonItem)>,
>)
    ensures
        opt_members(r) == task_members(opt_members(*top)),
{
    match find_item(top, "task") {
        Some(JsonItem::Object(t)) => parse_members(t.as_str()),
        _ => None,
    }
}

/// Reads the decision from a model's answer, which may stand in a fence. `fallback_raw` stands in
/// for a calibrated text that is missing; without an object in the answer there is nothing to
/// parse, and the fallback decides.
pub fn parse_decision(raw_json: &str, fallback_raw: &str) -> (r: Decision)
    ensures
        r@ == decided(
            answer_members(raw_json@),
            task_members(answer_members(raw_json@)),
            fallback_raw@,
        ),
{
    let top = match find_object(unfence_answer(raw_json)) {
        Some(t) => parse_members(t),
        None => None,
    };
    let inner = parse_task(&top);
    decide(&top, &inner, fallback_raw)
}

/// Law: an answer without an object in it decides nothing: the fallback text as chat, no reply,
/// no task.
pub proof fn law_no_object_no_decision(raw: Seq<char>, fallback: Seq<char>)
    requires
        first_object(unfenced(raw)) is None,
    ensures
        decided(answer_members(raw), task_members(answer_members(raw)), fallback) == (
        DecisionView { calibrated_text: fallback, intent: "chat"@, reply: ""@, task: None }),
{
}

proof fn lemma_closing_stays(s: Seq<char>, more: Seq<char>, i: int, w: Walk)
    requires
        closing(s, i, w) is Some,
    ensures
        closing(s + more, i, w) == closing(s, i, w),
        i <= closing(s, i, w)->0 < s.len(),
    decreases s.len() - i,
{
    assert((s + more)[i] == s[i]);
    if w.next(s[i]).depth > 0 {
        lemma_closing_stays(s, more, i + 1, w.next(s[i]));
    }
}

/// Law: what follows the first object does not matter, be it prose or another object.
pub proof fn law_the_first_object_counts(s: Seq<char>, more: Seq<char>)
    requires
        first_object(s) is Some,
    ensures
        first_object(s + more) == first_object(s),
{
    let a = first_index(s, '{')->0;
    let t = s + more;
    assert(first_at(s, '{', a));
    assert forall|j: int| 0 <= j < a implies t[j] != '{' by {
        assert(t[j] == s[j]);
    }
    assert(first_at(t, '{', a));
    let f = choose|k: int| first_at(t, '{', k);
    assert(first_at(t, '{', f));
    assert(f == a);
    lemma_closing_stays(s, more, a, Walk::start());
    let b = closing(s, a, Walk::start())->0;
    assert(t.subrange(a, b + 1) =~= s.subrange(a, b + 1));
}

/// The opening braces of a text, less the closing ones.
pub open spec fn balance(s: Seq<char>) -> int
    decreases s.len(),
{
    if s.len() == 0 {
        0
    } else {
        balance(s.drop_last()) + (if s.last() == '{' {
            1int
        } else if s.last() == '}' {
            -1int
        } else {
            0int
        })
    }
}

/// A brace is opened first, and it is closed at the end and not before.
pub open spec fn balanced(s: Seq<char>) -> bool {
    &&& s.len() >= 2
    &&& s[0] == '{'
    &&& balance(s) == 0
    &&& forall|k: int| 0 < k < s.len() ==> balance(#[trigger] s.take(k)) > 0
}

proof fn lemma_first_brace(before: Seq<char>, object: Seq<char>, after: Seq<char>)
    requires
        !before.contains('{'),
        object.len() > 0,
        object[0] == '{',
    ensures
        first_index(before + object + after, '{') == Some(before.len() as int),
{
    let s = before + object + after;
    let a = before.len() as int;
    assert(s[a] == '{');
    assert forall|j: int| 0 <= j < a implies s[j] != '{' by {
        assert(s[j] == before[j]);
        assert(before.contains(before[j]));
    }
    assert(first_at(s, '{', a));
    let f = choose|k: int| first_at(s, '{', k);
    assert(first_at(s, '{', f));
    assert(f == a);
}

proof fn lemma_closing_balanced(s: Seq<char>, a: int, object: Seq<char>, k: int, w: Walk)
    requires
        0 <= a,
        a + object.len() <= s.len(),
        s.subrange(a, a + object.len()) == object,
        !object.contains('"'),
        balanced(object),
        0 <= k < object.len(),
        !w.quoted,
        w.depth == balance(object.take(k)),
    ensures
        closing(s, a + k, w) == Some(a + object.len() - 1),
    decreases object.len() - k,
{
    let c = object[k];
    assert(s.subrange(a, a + object.len())[k] == s[a + k]);
    assert(object.contains(c));
    assert(object.take(k + 1).drop_last() =~= object.take(k));
    assert(w.next(c).depth == balance(object.take(k + 1)));
    if k + 1 < object.len() {
        assert(balance(object.take(k + 1)) > 0);
        lemma_closing_balanced(s, a, object, k + 1, w.next(c));
    } else {
        assert(object.take(k + 1) =~= object);
    }
}

/// Law: the object of an answer is its first one, from its opening brace to the closing brace
/// that belongs to it, whatever stands before and behind.
pub proof fn law_the_object_ends_at_its_own_brace(
    before: Seq<char>,
    object: Seq<char>,
    after: Seq<char>,
)
    requires
        !before.contains('{'),
        balanced(object),
        !object.contains('"'),
    ensures
        first_object(before + object + after) == Some(object),
{
    let s = before + object + after;
    let a = before.len() as int;
    lemma_first_brace(before, object, after);
    assert(s.subrange(a, a + object.len()) =~= object);
    assert(object.take(0) =~= Seq::<char>::empty());
    lemma_closing_balanced(s, a, object, 0, Walk::start());
}

proof fn lemma_quoted(s: Seq<char>, i: int, x: Seq<char>, w: Walk)
    requires
        0 <= i,
        i + x.len() <= s.len(),
        s.subrange(i, i + x.len()) == x,
        !x.contains('"'),
        !x.contains('\\'),
        w.quoted,
        !w.escaped,
        w.depth > 0,
    ensures
        closing(s, i, w) == closing(s, i + x.len(), w),
    decreases x.len(),
{
    if x.len() > 0 {
        let rest = x.skip(1);
        assert(x[0] == s[i]) by {
            assert(s.subrange(i, i + x.len())[0] == s[i]);
        }
        assert(x.contains(x[0]));
        assert(s.subrange(i + 1, i + 1 + rest.len()) =~= rest);
        assert forall|c: char| rest.contains(c) implies x.contains(c) by {
            let j = choose|j: int| 0 <= j < rest.len() && rest[j] == c;
            assert(x[j + 1] == c);
        }
        assert(w.next(s[i]) == w);
        lemma_quoted(s, i + 1, rest, w);
    }
}

/// Law: braces inside quotation marks are text: they open and close nothing, and neither does an
/// escaped quotation mark end the text.
pub proof fn law_braces_in_quotes_are_text(
    before: Seq<char>,
    x: Seq<char>,
    c: char,
    y: Seq<char>,
    after: Seq<char>,
)
    requires
        !before.contains('{'),
        !x.contains('"'),
        !x.contains('\\'),
        !y.contains('"'),
        !y.contains('\\'),
    ensures
        ({
            let plain = seq!['{', '"'] + x + seq!['"', '}'];
            let escaped = seq!['{', '"'] + x + seq!['\\', c] + y + seq!['"', '}'];
            &&& first_object(before + plain + after) == Some(plain)
            &&& first_object(before + escaped + after) == Some(escaped)
        }),
{
    let a = before.len() as int;
    let inside = Walk { depth: 1, quoted: true, escaped: false };
    let n = x.len() as int;
    reveal_with_fuel(closing, 5);

    let plain = seq!['{', '"'] + x + seq!['"', '}'];
    let s = before + plain + after;
    lemma_first_brace(before, plain, after);
    assert(s[a] == '{' && s[a + 1] == '"' && s[a + 2 + n] == '"' && s[a + 3 + n] == '}');
    assert(s.subrange(a + 2, a + 2 + n) =~= x);
    assert(Walk::start().next('{').next('"') == inside);
    lemma_quoted(s, a + 2, x, inside);
    assert(closing(s, a + 2 + n, inside) == Some(a + 3 + n));
    assert(closing(s, a, Walk::start()) == Some(a + 3 + n));
    assert(s.subrange(a, a + 4 + n) =~= plain);

    let m = y.len() as int;
    let escaped = seq!['{', '"'] + x + seq!['\\', c] + y + seq!['"', '}'];
    let t = before + escaped + after;
    lemma_first_brace(before, escaped, after);
    assert(t[a] == '{' && t[a + 1] == '"' && t[a + 2 + n] == '\\' && t[a + 3 + n] == c);
    assert(t[a + 4 + n + m] == '"' && t[a + 5 + n + m] == '}');
    assert(t.subrange(a + 2, a + 2 + n) =~= x);
    assert(t.subrange(a + 4 + n, a + 4 + n + m) =~= y);
    lemma_quoted(t, a + 2, x, inside);
    lemma_quoted(t, a + 4 + n, y, inside);
    assert(closing(t, a + 4 + n + m, inside) == Some(a + 5 + n + m));
    let after_slash = inside.next('\\');
    assert(after_slash == (Walk { escaped: true, ..inside }));
    assert(after_slash.next(c) == inside);
    assert(closing(t, a + 3 + n, after_slash) == closing(t, a + 4 + n, inside));
    assert(closing(t, a + 2 + n, inside) == closing(t, a + 3 + n, after_slash));
    assert(closing(t, a + 1, Walk::start().next('{')) == closing(t, a + 2, inside));
    assert(closing(t, a, Walk::start()) == Some(a + 5 + n + m));
    assert(t.subrange(a, a + 6 + n + m) =~= escaped);
}

/// Law: a fence around the answer is taken off, with the word json or without it; an answer
/// without one is only trimmed.
pub proof fn law_fences_are_taken_off(raw: Seq<char>, t: Seq<char>)
    ensures
        trimmed(raw) == "```json"@ + t + "```"@ ==> unfenced(raw) == trimmed(t),
        trimmed(raw) == "```"@ + t + "```"@ && (t.len() == 0 || t[0] != 'j') ==> unfenced(raw)
            == trimmed(t),
        trimmed(raw).len() == 0 || trimmed(raw)[0] != '`' ==> unfenced(raw) == trimmed(raw),
{
    reveal_strlit("```json");
    reveal_strlit("```");
    let s = trimmed(raw);
    if s == "```json"@ + t + "```"@ {
        let rest = s.skip(7);
        assert(s.take(7) =~= "```json"@);
        assert(rest =~= t + "```"@);
        assert(rest.skip(rest.len() - 3) =~= "```"@);
        assert(rest.take(rest.len() - 3) =~= t);
    }
    if s == "```"@ + t + "```"@ && (t.len() == 0 || t[0] != 'j') {
        let rest = s.skip(3);
        assert(s.take(3) =~= "```"@);
        assert(rest =~= t + "```"@);
        assert(rest.skip(rest.len() - 3) =~= "```"@);
        assert(rest.take(rest.len() - 3) =~= t);
        if has_prefix(s, "```json"@) {
            assert(s.take(7)[3] == s[3]);
            assert("```json"@[3] == 'j');
        }
    }
    if s.len() == 0 || s[0] != '`' {
        if has_prefix(s, "```json"@) {
            assert(s.take(7)[0] == s[0]);
        }
        if has_prefix(s, "```"@) {
            assert(s.take(3)[0] == s[0]);
        }
    }
}

/// Law: what the model says is taken as it is: a text that is there is the reply, the intent and,
/// where it is not empty, the calibrated text of the decision.
pub proof fn law_the_models_words_are_taken(
    members: Members,
    inner: Option<Members>,
    fallback: Seq<char>,
    i: int,
    t: Seq<char>,
)
    requires
        0 <= i < members.len(),
        members[i].1 == ItemView::Text(t),
    ensures
        ({
            let d = decided(Some(members), inner, fallback);
            &&& first_named(members, "reply"@, i) ==> d.reply == t
            &&& first_named(members, "intent"@, i) ==> d.intent == t
            &&& first_named(members, "calibrated_text"@, i) ==> d.calibrated_text == (if t.len()
                == 0 {
                fallback
            } else {
                t
            })
        }),
{
    law_members_are_found_by_name(members, "reply"@, i);
    law_members_are_found_by_name(members, "intent"@, i);
    law_members_are_found_by_name(members, "calibrated_text"@, i);
}

/// Law: what the model leaves out is filled in: no reply, chat, the fallback text, no task.
pub proof fn law_what_is_missing_is_filled_in(
    members: Members,
    inner: Option<Members>,
    fallback: Seq<char>,
    name: Seq<char>,
)
    requires
        forall|j: int| 0 <= j < members.len() ==> (#[trigger] members[j]).0 != name,
    ensures
        ({
            let d = decided(Some(members), inner, fallback);
            &&& name == "reply"@ ==> d.reply.len() == 0
            &&& name == "intent"@ ==> d.intent == "chat"@
            &&& name == "calibrated_text"@ ==> d.calibrated_text == fallback
            &&& name == "task"@ ==> d.task is None
        }),
{
    reveal_strlit("");
    law_members_are_found_by_name(members, name, 0);
}

/// Law: there is a task exactly where the answer has one that is not null, with the capability and
/// the brief of its object, or `write` and nothing where those are missing.
pub proof fn law_the_task_is_what_was_asked_for(
    members: Members,
    inner: Members,
    fallback: Seq<char>,
    i: int,
    k: int,
)
    requires
        first_named(members, "task"@, i),
    ensures
        ({
            let d = decided(Some(members), Some(inner), fallback);
            &&& d.task is Some <==> members[i].1 != ItemView::Null
            &&& d.task is Some && first_named(inner, "capability"@, k) && inner[k].1 is Text
                ==> (d.task->0).0 == inner[k].1->Text_0
            &&& d.task is Some && first_named(inner, "brief"@, k) && inner[k].1 is Text
                ==> (d.task->0).1 == inner[k].1->Text_0
            &&& d.task is Some && inner.len() == 0 ==> d.task == Some(("write"@, ""@))
            &&& task_members(Some(members)) == (match members[i].1 {
                ItemView::Object(t) => json_members(t),
                _ => None,
            })
        }),
{
    law_members_are_found_by_name(members, "task"@, i);
    law_members_are_found_by_name(inner, "capability"@, k);
    law_members_are_found_by_name(inner, "brief"@, k);
}

/// Law: a decision carries the model's own words: a text `reply` or `intent` as it is, and so the
/// calibrated text, where it is not empty.
pub proof fn law_a_decision_carries_the_models_words(
    members: Vec<(String, JsonItem)>,
    inner: Option<Vec<(String, JsonItem)>>,
    fallback: &str,
    r: Decision,
    i: int,
    t: Seq<char>,
)
    requires
        call_ensures(decide, (&Some(members), &inner, fallback), r),
        0 <= i < members@.len(),
        members@[i].1@ == ItemView::Text(t),
    ensures
        first_named(member_views(members@), "reply"@, i) ==> r.reply@ == t,
        first_named(member_views(members@), "intent"@, i) ==> r.intent@ == t,
        first_named(member_views(members@), "calibrated_text"@, i) ==> r.calibrated_text@ == (
        if t.len() == 0 {
            fallback@
        } else {
            t
        }),
{
    law_the_models_words_are_taken(member_views(members@), opt_members(inner), fallback@, i, t);
}

/// Law: what is read from an answer is its first object, whole, whatever prose stands around it; an
/// answer without one is taken as it is, trimmed.
pub proof fn law_the_object_is_read_from_the_prose(
    raw: &str,
    before: Seq<char>,
    object: Seq<char>,
    after: Seq<char>,
    r: String,
)
    requires
        call_ensures(extract_json, (raw,), r),
    ensures
        raw@ == before + object + after && trimmed(raw@) == raw@ && raw@.len() > 0 && raw@[0] != '`'
            && !before.contains('{') && balanced(object) && !object.contains('"') ==> r@ == object,
        !trimmed(raw@).contains('{') && (trimmed(raw@).len() == 0 || trimmed(raw@)[0] != '`')
            ==> r@ == trimmed(raw@),
{
    law_fences_are_taken_off(raw@, raw@);
    if raw@ == before + object + after && !before.contains('{') && balanced(object)
        && !object.contains('"') {
        law_the_object_ends_at_its_own_brace(before, object, after);
    }
    if !trimmed(raw@).contains('{') {
        crate::text::law_places_are_first_and_last(trimmed(raw@), '{');
    }
}

/// Law: a task that leaves out its capability is to write, and one that leaves out its brief has
/// none.
pub proof fn law_a_task_without_words_is_to_write(
    members: Members,
    inner: Members,
    fallback: Seq<char>,
    i: int,
)
    requires
        first_named(members, "task"@, i),
        members[i].1 != ItemView::Null,
    ensures
        ({
            let (capability, brief) = decided(Some(members), Some(inner), fallback).task->0;
            &&& (forall|j: int| 0 <= j < inner.len() ==> (#[trigger] inner[j]).0 != "capability"@)
                ==> capability == "write"@
            &&& (forall|j: int| 0 <= j < inner.len() ==> (#[trigger] inner[j]).0 != "brief"@) ==> brief
                == ""@
        }),
{
    law_members_are_found_by_name(members, "task"@, i);
    law_members_are_found_by_name(inner, "capability"@, 0);
    law_members_are_found_by_name(inner, "brief"@, 0);
}

} // verus!
