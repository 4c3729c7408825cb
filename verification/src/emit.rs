//! Writing YAML documents.

use crate::yaml::{self, Yaml, YamlNode, YamlTree};
use vstd::prelude::*;
use vstd::utf8::*;

verus! {

// ---------------------------------------------------------------------------
// What can be written
// ---------------------------------------------------------------------------

/// The most bytes that a text in a document may have.
pub const MOST_BYTES: usize = 0x7fff_ffff;

/// Whether a tree can be handed to the writer: no text in it is too long, and no tag is
/// empty.
pub open spec fn holdable(tree: YamlTree) -> bool
    decreases tree,
{
    match tree {
        YamlTree::Text(text) => encode_utf8(text).len() <= MOST_BYTES,
        YamlTree::Sequence(items) => forall|i: int|
            0 <= i < items.len() ==> holdable(#[trigger] items[i]),
        YamlTree::Mapping(entries) => forall|i: int|
            0 <= i < entries.len() ==> holdable((#[trigger] entries[i]).0) && holdable(
                entries[i].1,
            ),
        YamlTree::Tagged(tag, inner) => tag.len() > 0 && holdable(*inner),
        _ => true,
    }
}

/// Whether a key is a scalar other than a fraction. Of such keys two are the same only if
/// they are equal.
pub open spec fn plain_key(key: YamlTree) -> bool {
    key is Null || key is Bool || key is Integer || key is Text
}

/// Whether all keys of one level are plain.
pub open spec fn plain_level(tree: YamlTree) -> bool {
    match tree {
        YamlTree::Mapping(entries) => forall|i: int|
            0 <= i < entries.len() ==> plain_key((#[trigger] entries[i]).0),
        _ => true,
    }
}

/// Whether all keys in a tree are plain.
pub open spec fn plain_keys(tree: YamlTree) -> bool
    decreases tree,
{
    &&& plain_level(tree)
    &&& match tree {
        YamlTree::Sequence(items) => forall|i: int|
            0 <= i < items.len() ==> plain_keys(#[trigger] items[i]),
        YamlTree::Mapping(entries) => forall|i: int|
            0 <= i < entries.len() ==> plain_keys((#[trigger] entries[i]).1),
        YamlTree::Tagged(_, inner) => plain_keys(*inner),
        _ => true,
    }
}

/// Whether a tree is that of a YAML value with plain keys.
pub open spec fn well_formed(tree: YamlTree) -> bool {
    yaml::sound(tree) && plain_keys(tree)
}

/// Whether a tree is that of a YAML value with plain keys, none of whose texts is too long.
pub open spec fn writable(tree: YamlTree) -> bool {
    well_formed(tree) && holdable(tree)
}

proof fn lemma_holdable_sequence(items: Seq<YamlTree>)
    ensures
        holdable(YamlTree::Sequence(items)) <==> forall|i: int|
            0 <= i < items.len() ==> holdable(#[trigger] items[i]),
{
    assert(YamlTree::Sequence(items)->Sequence_0 == items);
}

proof fn lemma_holdable_mapping(entries: Seq<(YamlTree, YamlTree)>)
    ensures
        holdable(YamlTree::Mapping(entries)) <==> forall|i: int|
            0 <= i < entries.len() ==> holdable((#[trigger] entries[i]).0) && holdable(
                entries[i].1,
            ),
{
    assert(YamlTree::Mapping(entries)->Mapping_0 == entries);
}

proof fn lemma_plain_sequence(items: Seq<YamlTree>)
    ensures
        plain_keys(YamlTree::Sequence(items)) <==> forall|i: int|
            0 <= i < items.len() ==> plain_keys(#[trigger] items[i]),
{
    assert(YamlTree::Sequence(items)->Sequence_0 == items);
}

proof fn lemma_plain_mapping(entries: Seq<(YamlTree, YamlTree)>)
    ensures
        plain_keys(YamlTree::Mapping(entries)) <==> forall|i: int|
            0 <= i < entries.len() ==> plain_key((#[trigger] entries[i]).0) && plain_keys(
                entries[i].1,
            ),
{
    assert(YamlTree::Mapping(entries)->Mapping_0 == entries);
}

/// A sequence is well-formed if its items are.
pub proof fn lemma_well_formed_sequence(items: Seq<YamlTree>)
    ensures
        well_formed(YamlTree::Sequence(items)) <==> forall|i: int|
            0 <= i < items.len() ==> well_formed(#[trigger] items[i]),
{
    yaml::lemma_sound_sequence(items);
    lemma_plain_sequence(items);
}

/// A mapping is well-formed if its keys are plain and different and its contents are
/// well-formed.
pub proof fn lemma_well_formed_mapping(entries: Seq<(YamlTree, YamlTree)>)
    ensures
        well_formed(YamlTree::Mapping(entries)) <==> yaml::distinct_keys(entries) && forall|i: int|
            0 <= i < entries.len() ==> plain_key((#[trigger] entries[i]).0) && well_formed(
                entries[i].1,
            ),
{
    yaml::lemma_sound_mapping(entries);
    lemma_plain_mapping(entries);
}

/// The items of a sequence that can be written can be written too.
proof fn lemma_writable_items(items: Seq<YamlTree>)
    requires
        writable(YamlTree::Sequence(items)),
    ensures
        forall|i: int| 0 <= i < items.len() ==> writable(#[trigger] items[i]),
{
    yaml::lemma_sound_sequence(items);
    lemma_plain_sequence(items);
    lemma_holdable_sequence(items);
}

/// The keys and contents of a mapping that can be written can be written too.
proof fn lemma_writable_entries(entries: Seq<(YamlTree, YamlTree)>)
    requires
        writable(YamlTree::Mapping(entries)),
    ensures
        forall|i: int|
            0 <= i < entries.len() ==> writable((#[trigger] entries[i]).0) && writable(
                entries[i].1,
            ),
{
    yaml::lemma_sound_mapping(entries);
    lemma_plain_mapping(entries);
    lemma_holdable_mapping(entries);
}

/// Why a document cannot be written.
#[derive(Debug)]
pub enum WriteError {
    /// A text is too long or a tag is empty.
    Unwritable,
    /// What the other library says, which contracts do not speak of.
    Yaml(serde_yaml::Error),
}

/// Whether a value can be handed to the writer.
pub fn is_holdable(value: &Yaml) -> (can: bool)
    ensures
        can == holdable(value@),
    decreases value,
{
    match value {
        Yaml::Text(text) => text.as_str().as_bytes().len() <= MOST_BYTES,
        Yaml::Sequence(items) => {
            proof {
                yaml::lemma_sequence_tree(*items);
                lemma_holdable_sequence(yaml::trees(items@));
            }
            for i in 0..items.len()
                invariant
                    *value == Yaml::Sequence(*items),
                    value@ == YamlTree::Sequence(yaml::trees(items@)),
                    holdable(value@) <==> forall|j: int|
                        0 <= j < items@.len() ==> holdable(#[trigger] yaml::trees(items@)[j]),
                    forall|j: int| 0 <= j < i ==> holdable((#[trigger] items@[j])@),
            {
                assert(decreases_to!(value => value->Sequence_0));
                assert(decreases_to!(items => items[i as int]));
                if !is_holdable(&items[i]) {
                    assert(!holdable(yaml::trees(items@)[i as int]));
                    return false;
                }
            }
            true
        },
        Yaml::Mapping(entries) => {
            proof {
                yaml::lemma_mapping_tree(*entries);
                lemma_holdable_mapping(yaml::entry_trees(entries@));
            }
            for i in 0..entries.len()
                invariant
                    *value == Yaml::Mapping(*entries),
                    value@ == YamlTree::Mapping(yaml::entry_trees(entries@)),
                    holdable(value@) <==> forall|j: int|
                        0 <= j < entries@.len() ==> holdable(
                            (#[trigger] yaml::entry_trees(entries@)[j]).0,
                        ) && holdable(yaml::entry_trees(entries@)[j].1),
                    forall|j: int|
                        0 <= j < i ==> holdable((#[trigger] entries@[j]).0@) && holdable(
                            entries@[j].1@,
                        ),
            {
                assert(decreases_to!(value => value->Mapping_0));
                assert(decreases_to!(entries => entries[i as int]));
                if !is_holdable(&entries[i].0) || !is_holdable(&entries[i].1) {
                    assert(yaml::entry_trees(entries@)[i as int] == (
                        entries@[i as int].0@,
                        entries@[i as int].1@,
                    ));
                    return false;
                }
            }
            true
        },
        Yaml::Tagged(tag, inner) => !tag.as_str().is_empty() && is_holdable(inner),
        _ => true,
    }
}

// ---------------------------------------------------------------------------
// Writing
// ---------------------------------------------------------------------------

/// The variants of `serde_yaml::Value`, made of what they hold: of its number type, the
/// integers (`From`) and what a text is the notation of (`FromStr`); a mapping of its entries
/// in their order (`Mapping::from_iter`); a tag of its text (`Tag::new`). The value has the
/// tree of what it is made of, where that is sound and its keys are plain. In any case no
/// text in it is one that was not handed over, and no tag is empty. Nothing is said of the
/// error.
#[verifier::external_body]
fn close_value(node: YamlNode) -> (value: Result<serde_yaml::Value, serde_yaml::Error>)
    requires
        node matches YamlNode::Tagged(tag, _) ==> tag@.len() > 0,
    ensures
        match value {
            Ok(made) => {
                &&& yaml::sound_level(yaml::node_tree(node)) && plain_level(yaml::node_tree(node))
                    ==> yaml::value_tree(made) == yaml::node_tree(node)
                &&& holdable(yaml::node_tree(node)) ==> holdable(yaml::value_tree(made))
            },
            Err(_) => !yaml::sound_level(yaml::node_tree(node)),
        },
{
    Ok(match node {
        YamlNode::Null => serde_yaml::Value::Null,
        YamlNode::Bool(value) => value.into(),
        YamlNode::Unsigned(number) => number.into(),
        YamlNode::Negative(number) => number.into(),
        YamlNode::Float(number) => serde_yaml::Value::Number(number.parse()?),
        YamlNode::Text(text) => serde_yaml::Value::String(text),
        YamlNode::Sequence(items) => serde_yaml::Value::Sequence(items),
        YamlNode::Mapping(entries) => serde_yaml::Value::Mapping(entries.into_iter().collect()),
        YamlNode::Tagged(tag, value) => {
            let tag = serde_yaml::value::Tag::new(tag);
            serde_yaml::Value::Tagged(Box::new(serde_yaml::value::TaggedValue { tag, value }))
        },
    })
}

fn build_value(value: &Yaml) -> (built: Result<serde_yaml::Value, serde_yaml::Error>)
    requires
        holdable(value@),
    ensures
        built matches Ok(made) ==> holdable(yaml::value_tree(made)),
        writable(value@) ==> (built matches Ok(made) && yaml::value_tree(made) == value@),
    decreases value,
{
    let ghost whole = value@;
    let node: YamlNode = match value {
        Yaml::Null => YamlNode::Null,
        Yaml::Bool(value) => YamlNode::Bool(*value),
        Yaml::Unsigned(number) => YamlNode::Unsigned(*number),
        Yaml::Negative(number) => YamlNode::Negative(*number),
        Yaml::Float(number) => YamlNode::Float(number.clone()),
        Yaml::Text(text) => YamlNode::Text(text.clone()),
        Yaml::Sequence(items) => {
            proof {
                yaml::lemma_sequence_tree(*items);
            }
            let ghost trees = yaml::trees(items@);
            proof {
                lemma_holdable_sequence(trees);
                if writable(whole) {
                    lemma_writable_items(trees);
                }
            }
            let mut parts: Vec<serde_yaml::Value> = Vec::new();
            for i in 0..items.len()
                invariant
                    *value == Yaml::Sequence(*items),
                    whole == value@,
                    trees == yaml::trees(items@),
                    whole == YamlTree::Sequence(trees),
                    forall|j: int|
                        0 <= j < trees.len() ==> holdable(#[trigger] trees[j]) && (writable(whole)
                            ==> writable(trees[j])),
                    parts@.len() == i,
                    forall|j: int|
                        0 <= j < i ==> holdable(yaml::value_tree(#[trigger] parts@[j])) && (
                        writable(whole) ==> yaml::value_tree(parts@[j]) == trees[j]),
            {
                assert(decreases_to!(value => value->Sequence_0));
                assert(decreases_to!(items => items[i as int]));
                assert(trees[i as int] == items@[i as int]@);
                match build_value(&items[i]) {
                    Ok(part) => parts.push(part),
                    Err(error) => {
                        return Err(error);
                    },
                }
            }
            proof {
                let made = yaml::node_tree(YamlNode::Sequence(parts))->Sequence_0;
                assert forall|j: int| 0 <= j < made.len() implies holdable(#[trigger] made[j]) by {
                    assert(made[j] == yaml::value_tree(parts@[j]));
                }
                if writable(whole) {
                    assert(made =~= trees);
                }
            }
            YamlNode::Sequence(parts)
        },
        Yaml::Mapping(entries) => {
            proof {
                yaml::lemma_mapping_tree(*entries);
            }
            let ghost trees = yaml::entry_trees(entries@);
            proof {
                lemma_holdable_mapping(trees);
                if writable(whole) {
                    lemma_writable_entries(trees);
                }
            }
            let mut parts: Vec<(serde_yaml::Value, serde_yaml::Value)> = Vec::new();
            for i in 0..entries.len()
                invariant
                    *value == Yaml::Mapping(*entries),
                    whole == value@,
                    trees == yaml::entry_trees(entries@),
                    whole == YamlTree::Mapping(trees),
                    forall|j: int|
                        0 <= j < trees.len() ==> holdable((#[trigger] trees[j]).0) && holdable(
                            trees[j].1,
                        ) && (writable(whole) ==> writable(trees[j].0) && writable(trees[j].1)),
                    parts@.len() == i,
                    forall|j: int|
                        0 <= j < i ==> holdable(yaml::value_tree((#[trigger] parts@[j]).0))
                            && holdable(yaml::value_tree(parts@[j].1)) && (writable(whole) ==> (
                        yaml::value_tree(parts@[j].0),
                        yaml::value_tree(parts@[j].1),
                    ) == trees[j]),
            {
                assert(decreases_to!(value => value->Mapping_0));
                assert(decreases_to!(entries => entries[i as int]));
                let ghost entry = trees[i as int];
                assert(entry == (entries@[i as int].0@, entries@[i as int].1@));
                let key: serde_yaml::Value = match build_value(&entries[i].0) {
                    Ok(key) => key,
                    Err(error) => {
                        return Err(error);
                    },
                };
                match build_value(&entries[i].1) {
                    Ok(content) => parts.push((key, content)),
                    Err(error) => {
                        return Err(error);
                    },
                }
            }
            proof {
                let made = yaml::node_tree(YamlNode::Mapping(parts))->Mapping_0;
                assert forall|j: int| 0 <= j < made.len() implies holdable((#[trigger] made[j]).0)
                    && holdable(made[j].1) by {
                    assert(made[j].0 == yaml::value_tree(parts@[j].0));
                    assert(made[j].1 == yaml::value_tree(parts@[j].1));
                }
                if writable(whole) {
                    assert(made =~= trees);
                }
            }
            YamlNode::Mapping(parts)
        },
        Yaml::Tagged(tag, inner) => match build_value(inner) {
            Ok(part) => YamlNode::Tagged(tag.clone(), part),
            Err(error) => {
                return Err(error);
            },
        },
    };
    close_value(node)
}

/// The value of other crates that a document is.
pub fn to_value(document: &Yaml) -> (value: Result<serde_yaml::Value, WriteError>)
    ensures
        value matches Err(WriteError::Unwritable) <==> !holdable(document@),
        value matches Ok(made) ==> holdable(yaml::value_tree(made)),
        writable(document@) ==> (value matches Ok(made) && yaml::value_tree(made) == document@),
{
    if !is_holdable(document) {
        return Err(WriteError::Unwritable);
    }
    match build_value(document) {
        Ok(value) => Ok(value),
        Err(error) => Err(WriteError::Yaml(error)),
    }
}

/// The text of the YAML document that data is written to, if it can be written.
pub uninterp spec fn yaml_text(tree: YamlTree) -> Option<Seq<char>>;

/// `serde_yaml::to_string` on a `serde_yaml::Value`: the document, or an error; which of
/// them, and which text, depends on the data alone. The length of a text is counted in a
/// signed word of four bytes. Nothing is said of the error.
#[verifier::external_body]
fn write_value(value: &serde_yaml::Value) -> (text: Result<String, serde_yaml::Error>)
    requires
        holdable(yaml::value_tree(*value)),
    ensures
        match text {
            Ok(t) => yaml_text(yaml::value_tree(*value)) == Some(t@),
            Err(_) => yaml_text(yaml::value_tree(*value)) is None,
        },
{
    serde_yaml::to_string(value)
}

/// Writes a document. Where it holds a key that is no plain scalar, or what is no YAML
/// value, its text is written as far as the other library goes, and not spoken of here.
pub fn to_text(document: &Yaml) -> (text: Result<String, WriteError>)
    ensures
        text matches Err(WriteError::Unwritable) <==> !holdable(document@),
        writable(document@) ==> match text {
            Ok(t) => yaml_text(document@) == Some(t@),
            Err(WriteError::Yaml(_)) => yaml_text(document@) is None,
            Err(WriteError::Unwritable) => false,
        },
{
    let value: serde_yaml::Value = match to_value(document) {
        Ok(value) => value,
        Err(error) => {
            return Err(error);
        },
    };
    match write_value(&value) {
        Ok(text) => Ok(text),
        Err(error) => Err(WriteError::Yaml(error)),
    }
}

/// A document can be written only where every text in it has less than two to the power of
/// thirty-one bytes and every tag has a name. Numbers, truth values and nothing always can.
pub proof fn what_can_be_handed_over(
    text: Seq<char>,
    items: Seq<YamlTree>,
    entries: Seq<(YamlTree, YamlTree)>,
    tag: Seq<char>,
    inner: YamlTree,
)
    ensures
        holdable(YamlTree::Text(text)) <==> encode_utf8(text).len() < 0x8000_0000,
        holdable(YamlTree::Sequence(items)) <==> forall|i: int|
            0 <= i < items.len() ==> holdable(#[trigger] items[i]),
        holdable(YamlTree::Mapping(entries)) <==> forall|i: int|
            0 <= i < entries.len() ==> holdable((#[trigger] entries[i]).0) && holdable(
                entries[i].1,
            ),
        holdable(YamlTree::Tagged(tag, Box::new(inner))) <==> tag.len() > 0 && holdable(inner),
        inner is Null || inner is Bool || inner is Integer || inner is Float ==> holdable(inner),
{
    lemma_holdable_sequence(items);
    lemma_holdable_mapping(entries);
    reveal_with_fuel(holdable, 2);
}

} // verus!
