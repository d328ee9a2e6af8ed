//! The router's decision, read from the model's answer. Small models flatten the task into a
//! string or leave fields out; every such answer still decides something.

use vstd::prelude::*;
use vstd::string::*;

use crate::decision::{or_text, parse_task, task_members, text_or, Decision, DecisionView, TaskSpec};
use crate::json::{
    find_item, find_text, first_named, item_in, json_members, law_members_are_found_by_name,
    member_views, opt_members, parse_members, text_in, ItemView, JsonItem, Members,
};
use crate::text::{
    blank, chars_of, find_char, first_at, first_index, is_blank, last_at, last_index,
    law_places_are_first_and_last, rfind_char, same, trim, trimmed,
};

verus! {

/// The text from the first opening to the last closing brace, where they stand in this order.
pub open spec fn object_part(text: Seq<char>) -> Option<Seq<char>> {
    match (first_index(text, '{'), last_index(text, '}')) {
        (Some(a), Some(b)) => if b <= a {
            None
        } else {
            Some(text.subrange(a, b + 1))
        },
        _ => None,
    }
}

/// The members of the object in a text, where there is one.
pub open spec fn object_in(text: Seq<char>) -> Option<Members> {
    match object_part(text) {
        Some(t) => json_members(t),
        None => None,
    }
}

/// The text from the first opening to the last closing brace, where they stand in this order.
pub fn object_text<'a>(text: &'a str) -> (r: Option<&'a str>)
    ensures
        match r {
            Some(t) => object_part(text@) == Some(t@),
            None => object_part(text@) is None,
        },
{
    let cs = chars_of(text);
    // The number of characters fits in a `usize`, and so does the end of any part.
    let _n: usize = cs.len();
    match (find_char(&cs, '{'), rfind_char(&cs, '}')) {
        (Some(a), Some(b)) => if b <= a {
            None
        } else {
            Some(text.substring_char(a, b + 1))
        },
        _ => None,
    }
}

/// The members of the object in a text, where there is one.
pub fn extract_json(text: &str) -> (r: Option<Vec<(String, JsonItem)>>)
    ensures
        opt_members(r) == object_in(text@),
{
    match object_text(text) {
        Some(t) => parse_members(t),
        None => None,
    }
}

/// A text trimmed, where it holds more than white space.
pub open spec fn said(t: Option<Seq<char>>) -> Option<Seq<char>> {
    match t {
        Some(s) => if is_blank(s) {
            None
        } else {
            Some(trimmed(s))
        },
        None => None,
    }
}

/// The decision in the members of an answer: the intent is a task only where it says so, a
/// missing reply is made up for the intent, and a task always names a capability and a brief.
pub open spec fn routed(top: Option<Members>, inner: Option<Members>, fallback: Seq<char>) -> DecisionView {
    let calibrated = text_or(said(text_in(top, "calibrated_text"@)), fallback);
    let is_task = text_in(top, "intent"@) == Some("task"@);
    let sibling = text_or(text_in(top, "brief"@), calibrated);
    DecisionView {
        calibrated_text: calibrated,
        intent: if is_task {
            "task"@
        } else {
            "chat"@
        },
        reply: text_or(
            said(text_in(top, "reply"@)),
            if is_task {
                "好的，我来写。"@
            } else {
                "嗯，好的。"@
            },
        ),
        task: if is_task {
            Some(
                match item_in(top, "task"@) {
                    Some(ItemView::Object(_)) => (
                        text_or(text_in(inner, "capability"@), "write"@),
                        text_or(text_in(inner, "brief"@), sibling),
                    ),
                    Some(ItemView::Text(s)) => (s, sibling),
                    _ => ("write"@, sibling),
                },
            )
        } else {
            None
        },
    }
}

fn said_or(t: Option<&str>, default: &str) -> (r: String)
    ensures
        r@ == text_or(
            said(
                match t {
                    Some(s) => Some(s@),
                    None => None,
                },
            ),
            default@,
        ),
{
    match t {
        Some(s) => if blank(s) {
            default.to_owned()
        } else {
            trim(s).to_owned()
        },
        None => default.to_owned(),
    }
}

/// The decision in the members of an answer and of its task.
pub fn route(
    top: &Option<Vec<(String, JsonItem)>>,
    inner: &Option<Vec<(String, JsonItem)>>,
    fallback: &str,
) -> (r: Decision)
    ensures
        r@ == routed(opt_members(*top), opt_members(*inner), fallback@),
{
    let calibrated_text = said_or(find_text(top, "calibrated_text"), fallback);
    let is_task = match find_text(top, "intent") {
        Some(i) => same(i, "task"),
        None => false,
    };
    let reply = said_or(
        find_text(top, "reply"),
        if is_task {
            "好的，我来写。"
        } else {
            "嗯，好的。"
        },
    );
    let mut task: Option<TaskSpec> = None;
    if is_task {
        let sibling = or_text(find_text(top, "brief"), calibrated_text.as_str());
        task = Some(
            match find_item(top, "task") {
                Some(JsonItem::Object(_)) => TaskSpec {
                    capability: or_text(find_text(inner, "capability"), "write"),
                    brief: or_text(find_text(inner, "brief"), sibling.as_str()),
                },
                Some(JsonItem::Text(s)) => TaskSpec { capability: s.clone(), brief: sibling },
                _ => TaskSpec { capability: "write".to_owned(), brief: sibling },
            },
        );
    }
    let intent = if is_task {
        "task".to_owned()
    } else {
        "chat".to_owned()
    };
    Decision { calibrated_text, intent, reply, task }
}

/// Reads the decision from a model's answer; `fallback_text` stands in for a calibrated text that
/// is missing or blank.
pub fn parse_decision(raw: &str, fallback_text: &str) -> (r: Decision)
    ensures
        r@ == routed(object_in(raw@), task_members(object_in(raw@)), fallback_text@),
{
    let top = extract_json(raw);
    let inner = parse_task(&top);
    route(&top, &inner, fallback_text)
}

/// Law: whatever the model answers, there is a decision to act on: the intent is one of two, a
/// task comes exactly with the intent, and the reply is never empty.
pub proof fn law_every_answer_decides(top: Option<Members>, inner: Option<Members>, fallback: Seq<char>)
    ensures
        ({
            let d = routed(top, inner, fallback);
            &&& d.intent == "task"@ || d.intent == "chat"@
            &&& d.task is Some <==> d.intent == "task"@
            &&& d.reply.len() > 0
        }),
{
    reveal_strlit("task");
    reveal_strlit("chat");
    reveal_strlit("好的，我来写。");
    reveal_strlit("嗯，好的。");
    assert("task"@[0] != "chat"@[0]);
    match text_in(top, "reply"@) {
        Some(t) => {
            crate::text::lemma_blank_iff_trimmed_empty(t);
        },
        None => {},
    }
}

/// Law: what the model says is what is said. Where the answer's object has a text `reply` that is
/// not blank, the reply is that text, trimmed, for either intent; so with the calibrated text.
pub proof fn law_the_models_words_are_taken(
    members: Members,
    inner: Option<Members>,
    fallback: Seq<char>,
    i: int,
    t: Seq<char>,
)
    requires
        !is_blank(t),
    ensures
        first_named(members, "reply"@, i) && members[i].1 == ItemView::Text(t) ==> routed(
            Some(members),
            inner,
            fallback,
        ).reply == trimmed(t),
        first_named(members, "calibrated_text"@, i) && members[i].1 == ItemView::Text(t) ==> routed(
            Some(members),
            inner,
            fallback,
        ).calibrated_text == trimmed(t),
{
    law_members_are_found_by_name(members, "reply"@, i);
    law_members_are_found_by_name(members, "calibrated_text"@, i);
}

/// The object has no text of that name with anything in it.
pub open spec fn says_nothing(members: Members, name: Seq<char>) -> bool {
    forall|i: int|
        first_named(members, name, i) ==> (#[trigger] members[i].1 matches ItemView::Text(t)
            ==> is_blank(t))
}

proof fn lemma_says_nothing(members: Members, name: Seq<char>)
    requires
        says_nothing(members, name),
    ensures
        said(text_in(Some(members), name)) is None,
    decreases members.len(),
{
    if exists|j: int| 0 <= j < members.len() && (#[trigger] members[j]).0 == name {
        let j = choose|j: int| 0 <= j < members.len() && (#[trigger] members[j]).0 == name;
        let i = lemma_first(members, name, j);
        law_members_are_found_by_name(members, name, i);
    } else {
        law_members_are_found_by_name(members, name, 0);
    }
}

proof fn lemma_first(members: Members, name: Seq<char>, j: int) -> (i: int)
    requires
        0 <= j < members.len(),
        members[j].0 == name,
    ensures
        first_named(members, name, i),
    decreases j,
{
    if exists|k: int| 0 <= k < j && (#[trigger] members[k]).0 == name {
        let k = choose|k: int| 0 <= k < j && (#[trigger] members[k]).0 == name;
        lemma_first(members, name, k)
    } else {
        j
    }
}

/// Law: the stock answers stand in only where the model says nothing: a missing or blank reply
/// gives the one of the intent, a missing or blank calibrated text the fallback.
pub proof fn law_stock_answers_only_stand_in(
    members: Members,
    inner: Option<Members>,
    fallback: Seq<char>,
)
    ensures
        ({
            let d = routed(Some(members), inner, fallback);
            &&& says_nothing(members, "reply"@) ==> d.reply == (if d.intent == "task"@ {
                "好的，我来写。"@
            } else {
                "嗯，好的。"@
            })
            &&& says_nothing(members, "calibrated_text"@) ==> d.calibrated_text == fallback
        }),
        ({
            let d = routed(None, inner, fallback);
            d == (DecisionView {
                calibrated_text: fallback,
                intent: "chat"@,
                reply: "嗯，好的。"@,
                task: None,
            })
        }),
{
    if says_nothing(members, "reply"@) {
        lemma_says_nothing(members, "reply"@);
    }
    if says_nothing(members, "calibrated_text"@) {
        lemma_says_nothing(members, "calibrated_text"@);
    }
    reveal_strlit("task");
    reveal_strlit("chat");
    assert("task"@[0] != "chat"@[0]);
}

/// Law: it is a task exactly if the answer's intent is the text `task`; all else is chat.
pub proof fn law_only_task_is_a_task(
    members: Members,
    inner: Option<Members>,
    fallback: Seq<char>,
    i: int,
)
    requires
        first_named(members, "intent"@, i),
    ensures
        ({
            let d = routed(Some(members), inner, fallback);
            &&& members[i].1 == ItemView::Text("task"@) ==> d.intent == "task"@ && d.task is Some
            &&& members[i].1 != ItemView::Text("task"@) ==> d.intent == "chat"@ && d.task is None
        }),
{
    law_members_are_found_by_name(members, "intent"@, i);
}

/// Law: a task is what the answer asks for: capability and brief of its task object; where the
/// task is a text, that is the capability and the brief stands beside it; what is missing is
/// `write` and the calibrated text.
pub proof fn law_the_task_is_what_was_asked_for(
    members: Members,
    inner: Option<Members>,
    fallback: Seq<char>,
    i: int,
    k: int,
)
    requires
        routed(Some(members), inner, fallback).task is Some,
        first_named(members, "task"@, i),
    ensures
        ({
            let d = routed(Some(members), inner, fallback);
            let (capability, brief) = d.task->0;
            &&& members[i].1 matches ItemView::Text(t) ==> capability == t
            &&& members[i].1 is Object && inner is Some && first_named(inner->0, "capability"@, k) && (
            inner->0)[k].1 is Text ==> capability == (inner->0)[k].1->Text_0
            &&& members[i].1 is Object && inner is Some && first_named(inner->0, "brief"@, k) && (
            inner->0)[k].1 is Text ==> brief == (inner->0)[k].1->Text_0
            &&& !(members[i].1 is Object) && first_named(members, "brief"@, k) && members[k].1 is Text
                ==> brief == members[k].1->Text_0
            &&& !(members[i].1 is Object) && (forall|j: int|
                0 <= j < members.len() ==> (#[trigger] members[j]).0 != "brief"@) ==> brief
                == d.calibrated_text
            &&& !(members[i].1 is Object) && !(members[i].1 is Text) ==> capability == "write"@
            &&& members[i].1 is Object && inner is None ==> capability == "write"@
        }),
{
    law_members_are_found_by_name(members, "task"@, i);
    law_members_are_found_by_name(members, "brief"@, k);
    if let Some(m) = inner {
        law_members_are_found_by_name(m, "capability"@, k);
        law_members_are_found_by_name(m, "brief"@, k);
    }
}

/// Law: the object in an answer reaches from its first opening to its last closing brace; what
/// stands around it is dropped.
pub proof fn law_the_object_is_cut_out_of_the_answer(
    before: Seq<char>,
    object: Seq<char>,
    after: Seq<char>,
)
    requires
        !before.contains('{'),
        !after.contains('}'),
        object.len() >= 2,
        object[0] == '{',
        object[object.len() - 1] == '}',
    ensures
        object_part(before + object + after) == Some(object),
{
    let s = before + object + after;
    let a = before.len() as int;
    let b = before.len() + object.len() - 1;
    assert(s[a] == '{');
    assert(s[b] == '}');
    assert forall|j: int| 0 <= j < a implies s[j] != '{' by {
        assert(s[j] == before[j]);
        assert(before.contains(before[j]));
    }
    assert forall|j: int| b < j < s.len() implies s[j] != '}' by {
        assert(s[j] == after[j - b - 1]);
        assert(after.contains(after[j - b - 1]));
    }
    assert(first_at(s, '{', a));
    assert(last_at(s, '}', b));
    law_places_are_first_and_last(s, '{');
    law_places_are_first_and_last(s, '}');
    let x = first_index(s, '{')->0;
    let y = last_index(s, '}')->0;
    assert(first_at(s, '{', x));
    assert(last_at(s, '}', y));
    assert(x == a);
    assert(y == b);
    assert(s.subrange(a, b + 1) =~= object);
}

/// Law: a decision carries the model's own words: where the answer's object has a text `reply`, or
/// a text `calibrated_text`, that is not blank, the decision has it trimmed, for either intent.
pub proof fn law_a_decision_carries_the_models_words(
    members: Vec<(String, JsonItem)>,
    inner: Option<Vec<(String, JsonItem)>>,
    fallback: &str,
    r: Decision,
    i: int,
    t: Seq<char>,
)
    requires
        call_ensures(route, (&Some(members), &inner, fallback), r),
        !is_blank(t),
        0 <= i < members@.len(),
        members@[i].1@ == ItemView::Text(t),
    ensures
        first_named(member_views(members@), "reply"@, i) ==> r.reply@ == trimmed(t),
        first_named(member_views(members@), "calibrated_text"@, i) ==> r.calibrated_text@ == trimmed(
            t,
        ),
        first_named(member_views(members@), "intent"@, i) ==> (r.intent@ == "task"@ <==> t
            == "task"@),
{
    law_the_models_words_are_taken(member_views(members@), opt_members(inner), fallback@, i, t);
    if first_named(member_views(members@), "intent"@, i) {
        law_only_task_is_a_task(member_views(members@), opt_members(inner), fallback@, i);
        reveal_strlit("task");
        reveal_strlit("chat");
        assert("task"@[0] != "chat"@[0]);
    }
}

/// Law: what a task object leaves out is made up for: no capability is `write`; no brief is the one
/// that stands beside the task, and where there is none either, the calibrated text.
pub proof fn law_a_task_without_words_is_made_up_for(
    members: Members,
    inner: Members,
    fallback: Seq<char>,
    i: int,
    k: int,
)
    requires
        routed(Some(members), Some(inner), fallback).task is Some,
        first_named(members, "task"@, i),
        members[i].1 is Object,
    ensures
        ({
            let d = routed(Some(members), Some(inner), fallback);
            let (capability, brief) = d.task->0;
            let no_brief = forall|j: int|
                0 <= j < inner.len() ==> (#[trigger] inner[j]).0 != "brief"@;
            &&& (forall|j: int| 0 <= j < inner.len() ==> (#[trigger] inner[j]).0 != "capability"@)
                ==> capability == "write"@
            &&& no_brief && first_named(members, "brief"@, k) && members[k].1 is Text ==> brief
                == members[k].1->Text_0
            &&& no_brief && (forall|j: int|
                0 <= j < members.len() ==> (#[trigger] members[j]).0 != "brief"@) ==> brief
                == d.calibrated_text
        }),
{
    law_members_are_found_by_name(members, "task"@, i);
    law_members_are_found_by_name(members, "brief"@, k);
    law_members_are_found_by_name(inner, "capability"@, k);
    law_members_are_found_by_name(inner, "brief"@, k);
}

} // verus!
