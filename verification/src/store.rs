//! The rows of the database, and the one column that is written as JSON.

use vstd::prelude::*;
use vstd::string::*;

use crate::json::{json_literal, json_string};
use crate::text::{join, joined, law_joining_keeps_the_order, views};

verus! {

/// A recorded utterance. Times are in milliseconds since the epoch.
#[derive(Clone, Debug)]
pub struct VoiceChunk {
    pub chunk_id: String,
    pub start_time: i64,
    pub end_time: i64,
    pub raw_text: String,
    pub audio_path: Option<String>,
    pub audio_mime: Option<String>,
    pub duration_ms: Option<i64>,
    pub status: String,
    pub topic_id: Option<String>,
    pub created_at: i64,
}

/// A calibrated utterance and the chunks it was made from.
#[derive(Clone, Debug)]
pub struct CalibratedNode {
    pub node_id: String,
    /// The ids of the chunks, as a JSON array.
    pub linked_chunks: String,
    pub calibrated_text: String,
    pub topic_id: Option<String>,
    pub created_at: i64,
}

/// A topic and the article written on it.
#[derive(Clone, Debug)]
pub struct Topic {
    pub topic_id: String,
    pub title: String,
    pub article_markdown: String,
    pub status: String,
    pub created_at: i64,
    pub updated_at: i64,
}

/// A piece of work.
#[derive(Clone, Debug)]
pub struct Task {
    pub task_id: String,
    pub capability: String,
    pub brief: String,
    pub topic_id: Option<String>,
    pub status: String,
    pub result: Option<String>,
    pub created_at: i64,
    pub updated_at: i64,
}

/// An utterance to be recorded.
pub struct NewChunk<'a> {
    pub chunk_id: &'a str,
    pub start_time: i64,
    pub end_time: i64,
    pub raw_text: &'a str,
    pub audio_path: Option<&'a str>,
    pub audio_mime: Option<&'a str>,
    pub duration_ms: Option<i64>,
    pub topic_id: Option<&'a str>,
}

/// The texts as JSON string literals.
pub open spec fn literals(texts: Seq<Seq<char>>) -> Seq<Seq<char>> {
    Seq::new(texts.len(), |i: int| json_literal(texts[i]))
}

/// Some JSON literals as a JSON array.
pub open spec fn json_array(literals: Seq<Seq<char>>) -> Seq<char> {
    "["@ + joined(literals, ","@) + "]"@
}

/// Writes JSON literals as a JSON array.
pub fn write_json_array(literals: &Vec<String>) -> (r: String)
    ensures
        r@ == json_array(views(literals@)),
{
    let mut s = "[".to_owned();
    s.append(join(literals, ",").as_str());
    s.append("]");
    s
}

/// Some texts as a JSON array.
pub fn linked_chunks_text(ids: &Vec<String>) -> (r: String)
    ensures
        r@ == json_array(literals(views(ids@))),
{
    let mut parts: Vec<String> = Vec::new();
    let mut i: usize = 0;
    while i < ids.len()
        invariant
            0 <= i <= ids.len(),
            parts@.len() == i,
            forall|j: int| 0 <= j < i ==> (#[trigger] parts@[j])@ == json_literal(ids@[j]@),
        decreases ids.len() - i,
    {
        parts.push(json_string(ids[i].as_str()));
        i = i + 1;
    }
    proof {
        assert(views(parts@) =~= literals(views(ids@)));
    }
    write_json_array(&parts)
}

/// Law: the column lists the ids in their order, each as a JSON string, with commas between.
pub proof fn law_ids_are_listed_in_order(a: Seq<Seq<char>>, b: Seq<Seq<char>>, id: Seq<char>)
    ensures
        json_array(Seq::empty()) == "["@ + "]"@,
        json_array(literals(seq![id])) == "["@ + json_literal(id) + "]"@,
        a.len() > 0 && b.len() > 0 ==> json_array(literals(a + b)) == "["@ + joined(
            literals(a),
            ","@,
        ) + ","@ + joined(literals(b), ","@) + "]"@,
{
    assert(literals(seq![id]) =~= seq![json_literal(id)]);
    assert(literals(a + b) =~= literals(a) + literals(b));
    law_joining_keeps_the_order(literals(a), literals(b), json_literal(id), ","@);
    assert(json_array(Seq::empty()) =~= "["@ + "]"@);
    if a.len() > 0 && b.len() > 0 {
        assert(json_array(literals(a + b)) =~= "["@ + joined(literals(a), ","@) + ","@ + joined(
            literals(b),
            ","@,
        ) + "]"@);
    }
}

} // verus!
