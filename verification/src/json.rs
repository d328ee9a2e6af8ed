//! JSON objects as lists of members. The parsing is done by `serde_json`; a nested object or
//! array is handed on as its own text, to be parsed when it is looked into.

use serde_json::Value;

use vstd::prelude::*;
use vstd::string::*;

use crate::text::{digit_char, same};

verus! {

/// The value of a member.
#[derive(Debug)]
pub enum JsonItem {
    Null,
    Bool(bool),
    /// A number, as `serde_json` writes it.
    Number(String),
    Text(String),
    /// An array, as its text.
    Array(String),
    /// An object, as its text.
    Object(String),
}

/// The value of a member as a value.
pub enum ItemView {
    Null,
    Bool(bool),
    Number(Seq<char>),
    Text(Seq<char>),
    Array(Seq<char>),
    Object(Seq<char>),
}

impl View for JsonItem {
    type V = ItemView;

    open spec fn view(&self) -> ItemView {
        match self {
            JsonItem::Null => ItemView::Null,
            JsonItem::Bool(b) => ItemView::Bool(*b),
            JsonItem::Number(s) => ItemView::Number(s@),
            JsonItem::Text(s) => ItemView::Text(s@),
            JsonItem::Array(s) => ItemView::Array(s@),
            JsonItem::Object(s) => ItemView::Object(s@),
        }
    }
}

/// The members of an object with their names.
pub type Members = Seq<(Seq<char>, ItemView)>;

/// A list of members as values.
pub open spec fn member_views(v: Seq<(String, JsonItem)>) -> Members {
    Seq::new(v.len(), |i: int| (v[i].0@, v[i].1@))
}

/// An optional list of members as values.
pub open spec fn opt_members(v: Option<Vec<(String, JsonItem)>>) -> Option<Members> {
    match v {
        Some(m) => Some(member_views(m@)),
        None => None,
    }
}

/// The members of the JSON object that the text is; `None` where it is not one.
pub uninterp spec fn json_members(text: Seq<char>) -> Option<Members>;

/// `serde_json::from_str` into a `serde_json::Value`, its members taken out where it is an
/// object, each nested array or object written out again as text. The result is a function of
/// the text; which texts are JSON is left to `serde_json`.
#[verifier::external_body]
pub(crate) fn parse_members(text: &str) -> (r: Option<Vec<(String, JsonItem)>>)
    ensures
        opt_members(r) == json_members(text@),
{
    match serde_json::from_str::<Value>(text) {
        Ok(Value::Object(m)) => Some(m.into_iter().map(|(k, v)| (k, match v {
            Value::Null => JsonItem::Null,
            Value::Bool(b) => JsonItem::Bool(b),
            Value::Number(n) => JsonItem::Number(n.to_string()),
            Value::String(s) => JsonItem::Text(s),
            Value::Array(_) => JsonItem::Array(v.to_string()),
            Value::Object(_) => JsonItem::Object(v.to_string()),
        })).collect()),
        _ => None,
    }
}

/// A digit of a number to the base 16.
pub open spec fn hex_digit(n: int) -> char {
    if n < 10 {
        digit_char(n)
    } else {
        ('a' as int + n - 10) as char
    }
}

/// A character within a JSON string: a quote, a backslash and the control characters are escaped,
/// those that have a letter by it, the others by their number.
pub open spec fn json_char(c: char) -> Seq<char> {
    if c == '"' || c == '\\' {
        seq!['\\', c]
    } else if c == '\u{8}' {
        seq!['\\', 'b']
    } else if c == '\t' {
        seq!['\\', 't']
    } else if c == '\n' {
        seq!['\\', 'n']
    } else if c == '\u{c}' {
        seq!['\\', 'f']
    } else if c == '\r' {
        seq!['\\', 'r']
    } else if (c as int) < 0x20 {
        seq!['\\', 'u', '0', '0', hex_digit(c as int / 16), hex_digit(c as int % 16)]
    } else {
        seq![c]
    }
}

/// Characters within a JSON string.
pub open spec fn json_chars(text: Seq<char>) -> Seq<char>
    decreases text.len(),
{
    if text.len() == 0 {
        Seq::empty()
    } else {
        json_chars(text.drop_last()) + json_char(text.last())
    }
}

/// A text as a JSON string literal.
pub open spec fn json_literal(text: Seq<char>) -> Seq<char> {
    seq!['"'] + json_chars(text) + seq!['"']
}

/// `serde_json::Value::to_string` of a string value: the text in quotes, with quotes, backslashes
/// and control characters escaped as [`json_char`] says and every other character as it is.
#[verifier::external_body]
pub(crate) fn json_string(text: &str) -> (r: String)
    ensures
        r@ == json_literal(text@),
{
    Value::String(text.to_string()).to_string()
}

/// The value of the first member of that name.
pub open spec fn item_of(members: Members, name: Seq<char>) -> Option<ItemView>
    decreases members.len(),
{
    if members.len() == 0 {
        None
    } else if members[0].0 == name {
        Some(members[0].1)
    } else {
        item_of(members.skip(1), name)
    }
}

/// The value of a member of what may be no object.
pub open spec fn item_in(members: Option<Members>, name: Seq<char>) -> Option<ItemView> {
    match members {
        Some(m) => item_of(m, name),
        None => None,
    }
}

/// The text of a member, where it is one.
pub open spec fn text_in(members: Option<Members>, name: Seq<char>) -> Option<Seq<char>> {
    match item_in(members, name) {
        Some(ItemView::Text(t)) => Some(t),
        _ => None,
    }
}

proof fn lemma_item_at(members: Members, name: Seq<char>, i: int)
    requires
        0 <= i <= members.len(),
        forall|j: int| 0 <= j < i ==> (#[trigger] members[j]).0 != name,
        i < members.len() ==> members[i].0 == name,
    ensures
        i < members.len() ==> item_of(members, name) == Some(members[i].1),
        i == members.len() ==> item_of(members, name) is None,
    decreases i,
{
    if i > 0 {
        assert(members[0].0 != name);
        let t = members.skip(1);
        assert forall|j: int| 0 <= j < i - 1 implies (#[trigger] t[j]).0 != name by {
            assert(t[j] == members[j + 1]);
        }
        lemma_item_at(t, name, i - 1);
    }
}

/// The value of a member.
pub fn find_item<'a>(members: &'a Option<Vec<(String, JsonItem)>>, name: &str) -> (r: Option<
    &'a JsonItem,
>)
    ensures
        match r {
            Some(i) => item_in(opt_members(*members), name@) == Some(i@),
            None => item_in(opt_members(*members), name@) is None,
        },
{
    match members {
        None => None,
        Some(m) => {
            let mut i: usize = 0;
            while i < m.len()
                invariant
                    0 <= i <= m.len(),
                    opt_members(*members) == Some(member_views(m@)),
                    forall|j: int| 0 <= j < i ==> (#[trigger] member_views(m@)[j]).0 != name@,
                decreases m.len() - i,
            {
                if same(m[i].0.as_str(), name) {
                    proof {
                        assert(member_views(m@)[i as int].0 == name@);
                        lemma_item_at(member_views(m@), name@, i as int);
                        assert(member_views(m@)[i as int].1 == m@[i as int].1@);
                    }
                    return Some(&m[i].1);
                }
                i = i + 1;
            }
            proof {
                lemma_item_at(member_views(m@), name@, m@.len() as int);
            }
            None
        },
    }
}

/// The text of a member, where it is one.
pub fn find_text<'a>(members: &'a Option<Vec<(String, JsonItem)>>, name: &str) -> (r: Option<&'a str>)
    ensures
        match r {
            Some(t) => text_in(opt_members(*members), name@) == Some(t@),
            None => text_in(opt_members(*members), name@) is None,
        },
{
    match find_item(members, name) {
        Some(JsonItem::Text(t)) => Some(t.as_str()),
        _ => None,
    }
}

/// Member `i` is the first of that name.
pub open spec fn first_named(members: Members, name: Seq<char>, i: int) -> bool {
    &&& 0 <= i < members.len()
    &&& members[i].0 == name
    &&& forall|j: int| 0 <= j < i ==> (#[trigger] members[j]).0 != name
}

/// Law: a member is found by its name, the first of that name counts, and nothing is found where
/// there is none.
pub proof fn law_members_are_found_by_name(members: Members, name: Seq<char>, i: int)
    ensures
        first_named(members, name, i) ==> item_in(Some(members), name) == Some(members[i].1),
        first_named(members, name, i) ==> text_in(Some(members), name) == (match members[i].1 {
            ItemView::Text(t) => Some(t),
            _ => None,
        }),
        (forall|j: int| 0 <= j < members.len() ==> (#[trigger] members[j]).0 != name) ==> item_in(
            Some(members),
            name,
        ) is None && text_in(Some(members), name) is None,
    decreases members.len(),
{
    if members.len() > 0 {
        let rest = members.skip(1);
        law_members_are_found_by_name(rest, name, i - 1);
        assert forall|j: int| 0 <= j < rest.len() implies #[trigger] rest[j] == members[j + 1] by {}
        if first_named(members, name, i) && i > 0 {
            assert(members[0].0 != name);
            assert forall|j: int| 0 <= j < i - 1 implies (#[trigger] rest[j]).0 != name by {
                assert(members[j + 1].0 != name);
            }
            assert(first_named(rest, name, i - 1));
        }
        if forall|j: int| 0 <= j < members.len() ==> (#[trigger] members[j]).0 != name {
            assert(members[0].0 != name);
            assert forall|j: int| 0 <= j < rest.len() implies (#[trigger] rest[j]).0 != name by {
                assert(members[j + 1].0 != name);
            }
        }
    }
}

/// The value of a hexadecimal digit.
pub open spec fn hex_value(c: char) -> int {
    if 'a' <= c <= 'f' {
        c as int - 'a' as int + 10
    } else {
        c as int - '0' as int
    }
}

/// The text that the inside of a JSON string stands for.
pub open spec fn unescaped(s: Seq<char>) -> Seq<char>
    decreases s.len(),
{
    if s.len() == 0 {
        Seq::empty()
    } else if s[0] != '\\' || s.len() < 2 {
        seq![s[0]] + unescaped(s.skip(1))
    } else if s[1] == 'u' && s.len() >= 6 {
        seq![(hex_value(s[4]) * 16 + hex_value(s[5])) as char] + unescaped(s.skip(6))
    } else {
        (if s[1] == 'b' {
            seq!['\u{8}']
        } else if s[1] == 't' {
            seq!['\t']
        } else if s[1] == 'n' {
            seq!['\n']
        } else if s[1] == 'f' {
            seq!['\u{c}']
        } else if s[1] == 'r' {
            seq!['\r']
        } else {
            seq![s[1]]
        }) + unescaped(s.skip(2))
    }
}

proof fn lemma_json_chars_front(text: Seq<char>)
    requires
        text.len() > 0,
    ensures
        json_chars(text) == json_char(text[0]) + json_chars(text.skip(1)),
    decreases text.len(),
{
    let rest = text.drop_last();
    if text.len() == 1 {
        assert(rest =~= Seq::<char>::empty());
        assert(text.skip(1) =~= Seq::<char>::empty());
        assert(json_chars(Seq::<char>::empty()) =~= Seq::<char>::empty());
        assert(json_chars(text) =~= json_char(text[0]) + json_chars(text.skip(1)));
    } else {
        lemma_json_chars_front(rest);
        assert(text.skip(1).drop_last() =~= rest.skip(1));
        assert(json_chars(text) =~= json_char(text[0]) + json_chars(text.skip(1)));
    }
}

/// Law: a JSON string stands for the text it was made from: without its quotes and with its
/// escapes undone it is that text again.
pub proof fn law_json_strings_read_back(text: Seq<char>)
    ensures
        json_literal(text).len() >= 2,
        json_literal(text)[0] == '"',
        json_literal(text)[json_literal(text).len() - 1] == '"',
        unescaped(json_literal(text).subrange(1, json_literal(text).len() - 1)) == text,
{
    lemma_unescaped(text);
    assert(json_literal(text).subrange(1, json_literal(text).len() - 1) =~= json_chars(text));
}

proof fn lemma_unescaped_char(c: char, more: Seq<char>)
    ensures
        unescaped(json_char(c) + more) == seq![c] + unescaped(more),
{
    let all = json_char(c) + more;
    let short = c == '"' || c == '\\' || c == '\u{8}' || c == '\t' || c == '\n' || c == '\u{c}' || c
        == '\r';
    assert(all.skip(json_char(c).len() as int) =~= more);
    if (c as int) < 0x20 && !short {
        let n = c as int;
        assert(n == 16 * (n / 16) + n % 16);
        assert(0 <= n / 16 <= 1 && 0 <= n % 16 < 16);
        assert(hex_value(hex_digit(n / 16)) == n / 16);
        assert(hex_value(hex_digit(n % 16)) == n % 16);
        assert(all[0] == '\\' && all[1] == 'u');
        assert(all[4] == hex_digit(n / 16) && all[5] == hex_digit(n % 16));
        assert((hex_value(all[4]) * 16 + hex_value(all[5])) as char == c);
    } else if short {
        assert(all[0] == '\\');
    } else {
        assert(all[0] == c);
    }
}

proof fn lemma_unescaped(text: Seq<char>)
    ensures
        unescaped(json_chars(text)) == text,
    decreases text.len(),
{
    if text.len() == 0 {
        assert(unescaped(json_chars(text)) =~= text);
    } else {
        lemma_json_chars_front(text);
        lemma_unescaped(text.skip(1));
        lemma_unescaped_char(text[0], json_chars(text.skip(1)));
        assert(seq![text[0]] + text.skip(1) =~= text);
    }
}

/// Law: no quotation mark inside a JSON string ends it: each is escaped, and no control character
/// stands as it is.
pub proof fn law_nothing_breaks_out_of_a_json_string(c: char)
    ensures
        json_char(c).len() >= 1,
        c == '"' || c == '\\' || (c as int) < 0x20 ==> json_char(c)[0] == '\\' && json_char(c).len()
            >= 2,
        forall|i: int| 0 <= i < json_char(c).len() ==> (#[trigger] json_char(c)[i]) as int >= 0x20,
        !(c == '"' || c == '\\' || (c as int) < 0x20) ==> json_char(c) == seq![c],
{
}

/// Law: members are seen one for one, in their order, each under its own name.
pub proof fn law_members_are_seen_as_they_are(v: Vec<(String, JsonItem)>, i: int)
    requires
        0 <= i < v@.len(),
    ensures
        opt_members(Some(v)) == Some(member_views(v@)),
        member_views(v@).len() == v@.len(),
        member_views(v@)[i] == (v@[i].0@, v@[i].1@),
        opt_members(None) is None,
{
}

/// Law: a text member is found by its name, the first of that name counts, and a member that is no
/// text is none.
pub proof fn law_a_text_is_found_by_its_name(
    v: Vec<(String, JsonItem)>,
    name: &str,
    i: int,
    r: Option<&str>,
)
    requires
        call_ensures(find_text, (&Some(v), name), r),
        first_named(member_views(v@), name@, i),
    ensures
        v@[i].1 matches JsonItem::Text(t) ==> (r matches Some(s) && s@ == t@),
        !(v@[i].1 is Text) ==> r is None,
{
    law_members_are_found_by_name(member_views(v@), name@, i);
}

} // verus!
