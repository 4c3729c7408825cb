//! JSON documents, as far as share links use them.

use crate::text::same_text;
use vstd::prelude::*;

verus! {

/// The value that `serde_json` parses a document to.
#[verifier::external_type_specification]
#[verifier::external_body]
pub struct ExJsonValue(serde_json::Value);

/// A JSON value: a text, a number in its decimal notation, an object, or anything else.
#[derive(Debug, PartialEq, Eq)]
pub enum Json {
    Text(String),
    Number(String),
    Object(Vec<(String, Json)>),
    Other,
}

/// A JSON value as contracts speak of it.
#[verifier::ext_equal]
pub enum JsonTree {
    Text(Seq<char>),
    Number(Seq<char>),
    Object(Seq<(Seq<char>, JsonTree)>),
    Other,
}

/// The trees of the members of an object.
pub open spec fn member_trees(list: Seq<(String, Json)>) -> Seq<(Seq<char>, JsonTree)> {
    Seq::new(list.len(), |i: int| (list[i].0@, list[i].1@))
}

impl Json {
    pub open spec fn tree(self) -> JsonTree
        decreases self,
    {
        match self {
            Json::Text(text) => JsonTree::Text(text@),
            Json::Number(number) => JsonTree::Number(number@),
            Json::Object(members) => JsonTree::Object(
                Seq::new(
                    members@.len(),
                    |i: int|
                        if 0 <= i < members@.len() {
                            (members@[i].0@, members@[i].1.tree())
                        } else {
                            (Seq::empty(), JsonTree::Other)
                        },
                ),
            ),
            Json::Other => JsonTree::Other,
        }
    }
}

impl View for Json {
    type V = JsonTree;

    open spec fn view(&self) -> JsonTree {
        self.tree()
    }
}

/// The tree of an object is made of the trees of its members.
pub broadcast proof fn lemma_object_tree(members: Vec<(String, Json)>)
    ensures
        (#[trigger] Json::Object(members).tree()) == JsonTree::Object(member_trees(members@)),
{
    assert(Json::Object(members).tree()->Object_0 =~= member_trees(members@));
}

/// The outermost level of a parsed value.
pub enum JsonNode {
    Text(String),
    Number(String),
    Object(Vec<(String, serde_json::Value)>),
    Other,
}

/// The data that a parsed value holds.
pub uninterp spec fn json_value_tree(value: serde_json::Value) -> JsonTree;

/// The tree of a parsed value, level by level.
pub open spec fn json_node_tree(node: JsonNode) -> JsonTree {
    match node {
        JsonNode::Text(text) => JsonTree::Text(text@),
        JsonNode::Number(number) => JsonTree::Number(number@),
        JsonNode::Object(members) => JsonTree::Object(
            Seq::new(members@.len(), |i: int| (members@[i].0@, json_value_tree(members@[i].1))),
        ),
        JsonNode::Other => JsonTree::Other,
    }
}

/// The variants of `serde_json::Value`: a string with its text, a number as it is printed
/// (`Number::to_string`), an object with its members (`Map::into_iter`), and the others,
/// which this library does not look into.
#[verifier::external_body]
fn open_json(value: serde_json::Value) -> (node: JsonNode)
    ensures
        json_node_tree(node) == json_value_tree(value),
{
    match value {
        serde_json::Value::Null => JsonNode::Other,
        serde_json::Value::Bool(_) => JsonNode::Other,
        serde_json::Value::Number(number) => JsonNode::Number(number.to_string()),
        serde_json::Value::String(text) => JsonNode::Text(text),
        serde_json::Value::Array(_) => JsonNode::Other,
        serde_json::Value::Object(members) => JsonNode::Object(members.into_iter().collect()),
    }
}

/// The data of a parsed value.
pub fn from_json(value: serde_json::Value) -> (json: Json)
    ensures
        json@ == json_value_tree(value),
    decreases json_value_tree(value),
{
    let ghost whole = json_value_tree(value);
    match open_json(value) {
        JsonNode::Text(text) => Json::Text(text),
        JsonNode::Number(number) => Json::Number(number),
        JsonNode::Object(members) => {
            let ghost parts = members@;
            let mut out: Vec<(String, Json)> = Vec::new();
            for entry in it: members
                invariant
                    it.seq() == parts,
                    whole == json_value_tree(value),
                    whole == JsonTree::Object(
                        Seq::new(parts.len(), |i: int| (parts[i].0@, json_value_tree(parts[i].1))),
                    ),
                    out@.len() == it.index(),
                    forall|i: int|
                        0 <= i < out@.len() ==> (#[trigger] out@[i]).0@ == parts[i].0@
                            && out@[i].1@ == json_value_tree(parts[i].1),
            {
                proof {
                    let i = it.index();
                    assert(decreases_to!(whole => whole->Object_0));
                    assert(decreases_to!(whole->Object_0 => (whole->Object_0)[i]));
                    assert((whole->Object_0)[i] == (entry.0@, json_value_tree(entry.1)));
                    assert(decreases_to!((whole->Object_0)[i] => (whole->Object_0)[i].1));
                }
                let content = from_json(entry.1);
                out.push((entry.0, content));
            }
            proof {
                lemma_object_tree(out);
                assert(member_trees(out@) =~= whole->Object_0);
            }
            Json::Object(out)
        },
        JsonNode::Other => Json::Other,
    }
}

/// The data of the JSON document that a text is, if it is one.
pub uninterp spec fn json_document(text: Seq<char>) -> Option<JsonTree>;

/// `serde_json::from_str` into a `serde_json::Value`: the document, or an error; which of
/// them, and which data, depends on the text alone. Nothing is said of the error.
#[verifier::external_body]
fn load_json(text: &str) -> (value: Result<serde_json::Value, serde_json::Error>)
    ensures
        match value {
            Ok(v) => json_document(text@) == Some(json_value_tree(v)),
            Err(_) => json_document(text@) is None,
        },
{
    serde_json::from_str(text)
}

/// Parses a text as one JSON document.
pub fn parse_json(text: &str) -> (document: Result<Json, serde_json::Error>)
    ensures
        match document {
            Ok(json) => json_document(text@) == Some(json@),
            Err(_) => json_document(text@) is None,
        },
{
    match load_json(text) {
        Ok(value) => Ok(from_json(value)),
        Err(error) => Err(error),
    }
}

/// The member of an object under a name.
pub open spec fn member_at(members: Seq<(Seq<char>, JsonTree)>, key: Seq<char>) -> Option<JsonTree>
    decreases members.len(),
{
    if members.len() == 0 {
        None
    } else if members[0].0 == key {
        Some(members[0].1)
    } else {
        member_at(members.skip(1), key)
    }
}

/// The text under a key: that of a string, or the notation of a number. Any other value
/// has no text, nor has a document that is no object.
pub open spec fn json_text(json: JsonTree, key: Seq<char>) -> Option<Seq<char>> {
    match json {
        JsonTree::Object(members) => match member_at(members, key) {
            Some(JsonTree::Text(text)) => Some(text),
            Some(JsonTree::Number(number)) => Some(number),
            _ => None,
        },
        _ => None,
    }
}

/// The text under a key of a JSON object, of a string or of a number.
pub fn json_string(json: &Json, key: &str) -> (text: Option<String>)
    ensures
        match text {
            Some(t) => json_text(json@, key@) == Some(t@),
            None => json_text(json@, key@) is None,
        },
{
    match json {
        Json::Object(members) => {
            let ghost all = member_trees(members@);
            proof {
                lemma_object_tree(*members);
                assert(all.skip(0) =~= all);
            }
            for i in 0..members.len()
                invariant
                    json@ == JsonTree::Object(all),
                    all == member_trees(members@),
                    member_at(all, key@) == member_at(all.skip(i as int), key@),
            {
                assert(all.skip(i as int)[0] == all[i as int]);
                assert(all.skip(i as int).skip(1) =~= all.skip(i + 1));
                if same_text(members[i].0.as_str(), key) {
                    return match &members[i].1 {
                        Json::Text(text) => Some(text.clone()),
                        Json::Number(number) => Some(number.clone()),
                        _ => None,
                    };
                }
            }
            None
        },
        _ => None,
    }
}

/// The text under a key is that of the first member with that key: of a string its text, of
/// a number its notation, and of any other value none.
pub proof fn first_member_counts(
    front: Seq<(Seq<char>, JsonTree)>,
    key: Seq<char>,
    value: JsonTree,
    back: Seq<(Seq<char>, JsonTree)>,
)
    requires
        forall|i: int| 0 <= i < front.len() ==> (#[trigger] front[i]).0 != key,
    ensures
        json_text(JsonTree::Object(front.push((key, value)) + back), key) == match value {
            JsonTree::Text(text) => Some(text),
            JsonTree::Number(number) => Some(number),
            JsonTree::Object(_) => None,
            JsonTree::Other => None,
        },
        json_text(JsonTree::Object(front), key) is None,
    decreases front.len(),
{
    let all = front.push((key, value)) + back;
    if front.len() == 0 {
        assert(all[0] == (key, value));
    } else {
        assert(all[0] == front[0]);
        assert(all.skip(1) =~= front.skip(1).push((key, value)) + back);
        assert forall|i: int| 0 <= i < front.skip(1).len() implies (#[trigger] front.skip(1)[i]).0
            != key by {
            assert(front.skip(1)[i] == front[i + 1]);
        }
        first_member_counts(front.skip(1), key, value, back);
    }
}

/// A document that is no object has no text under any key.
pub proof fn only_objects_have_members(json: JsonTree, key: Seq<char>)
    requires
        !(json is Object),
    ensures
        json_text(json, key) is None,
{
}

} // verus!
