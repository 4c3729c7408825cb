//! YAML documents as plain data.

use crate::text::same_text;
use vstd::prelude::*;

verus! {

/// The value that `serde_yaml` parses a document to.
#[verifier::external_type_specification]
#[verifier::external_body]
pub struct ExYamlValue(serde_yaml::Value);

/// The error of `serde_yaml`.
#[verifier::external_type_specification]
#[verifier::external_body]
pub struct ExYamlError(serde_yaml::Error);

/// A YAML value.
///
/// Integers are held as numbers; any other number is held as its text, which nothing here
/// reads. The entries of a mapping keep their order.
#[derive(Debug, PartialEq, Eq)]
pub enum Yaml {
    Null,
    Bool(bool),
    Unsigned(u64),
    Negative(i64),
    Float(String),
    Text(String),
    Sequence(Vec<Yaml>),
    Mapping(Vec<(Yaml, Yaml)>),
    Tagged(String, Box<Yaml>),
}

/// A YAML value as contracts speak of it.
#[verifier::ext_equal]
pub enum YamlTree {
    Null,
    Bool(bool),
    Integer(int),
    Float(Seq<char>),
    Text(Seq<char>),
    Sequence(Seq<YamlTree>),
    Mapping(Seq<(YamlTree, YamlTree)>),
    Tagged(Seq<char>, Box<YamlTree>),
}

/// The trees of a list of values.
pub open spec fn trees(list: Seq<Yaml>) -> Seq<YamlTree> {
    Seq::new(list.len(), |i: int| list[i]@)
}

/// The trees of a list of entries.
pub open spec fn entry_trees(list: Seq<(Yaml, Yaml)>) -> Seq<(YamlTree, YamlTree)> {
    Seq::new(list.len(), |i: int| (list[i].0@, list[i].1@))
}

impl Yaml {
    pub open spec fn tree(self) -> YamlTree
        decreases self,
    {
        match self {
            Yaml::Null => YamlTree::Null,
            Yaml::Bool(value) => YamlTree::Bool(value),
            Yaml::Unsigned(number) => YamlTree::Integer(number as int),
            Yaml::Negative(number) => YamlTree::Integer(number as int),
            Yaml::Float(number) => YamlTree::Float(number@),
            Yaml::Text(text) => YamlTree::Text(text@),
            Yaml::Sequence(items) => YamlTree::Sequence(
                Seq::new(
                    items@.len(),
                    |i: int|
                        if 0 <= i < items@.len() {
                            items@[i].tree()
                        } else {
                            YamlTree::Null
                        },
                ),
            ),
            Yaml::Mapping(entries) => YamlTree::Mapping(
                Seq::new(
                    entries@.len(),
                    |i: int|
                        if 0 <= i < entries@.len() {
                            (entries@[i].0.tree(), entries@[i].1.tree())
                        } else {
                            (YamlTree::Null, YamlTree::Null)
                        },
                ),
            ),
            Yaml::Tagged(tag, inner) => YamlTree::Tagged(tag@, Box::new(inner.tree())),
        }
    }
}

impl View for Yaml {
    type V = YamlTree;

    open spec fn view(&self) -> YamlTree {
        self.tree()
    }
}

/// The tree of a sequence is made of the trees of its items.
pub broadcast proof fn lemma_sequence_tree(items: Vec<Yaml>)
    ensures
        (#[trigger] Yaml::Sequence(items).tree()) == YamlTree::Sequence(trees(items@)),
{
    assert(Yaml::Sequence(items).tree()->Sequence_0 =~= trees(items@));
}

/// The tree of a mapping is made of the trees of its keys and values.
pub broadcast proof fn lemma_mapping_tree(entries: Vec<(Yaml, Yaml)>)
    ensures
        (#[trigger] Yaml::Mapping(entries).tree()) == YamlTree::Mapping(entry_trees(entries@)),
{
    assert(Yaml::Mapping(entries).tree()->Mapping_0 =~= entry_trees(entries@));
}

/// An entry of a mapping whose key is a text.
pub open spec fn field(key: Seq<char>, content: YamlTree) -> (YamlTree, YamlTree) {
    (YamlTree::Text(key), content)
}

/// An entry of a mapping whose key is a text.
pub fn entry(key: &str, content: Yaml) -> (made: (Yaml, Yaml))
    ensures
        (made.0@, made.1@) == field(key@, content@),
{
    (Yaml::Text(key.to_string()), content)
}

/// A text as a YAML value.
pub fn text_value(text: &str) -> (yaml: Yaml)
    ensures
        yaml@ == YamlTree::Text(text@),
{
    Yaml::Text(text.to_string())
}

/// The keys of the entries of a mapping.
pub open spec fn keys_of(entries: Seq<(YamlTree, YamlTree)>) -> Seq<YamlTree> {
    Seq::new(entries.len(), |i: int| entries[i].0)
}

/// Whether a text is a key of a mapping.
pub open spec fn has_key(entries: Seq<(YamlTree, YamlTree)>, key: Seq<char>) -> bool {
    exists|i: int| 0 <= i < entries.len() && (#[trigger] entries[i]).0 == YamlTree::Text(key)
}

/// A mapping with one entry set: the content is replaced where the key is there already,
/// and else the entry comes last.
pub open spec fn with_field(
    entries: Seq<(YamlTree, YamlTree)>,
    key: Seq<char>,
    content: YamlTree,
) -> Seq<(YamlTree, YamlTree)> {
    match keys_of(entries).index_of_first(YamlTree::Text(key)) {
        Some(i) => entries.update(i, field(key, content)),
        None => entries.push(field(key, content)),
    }
}

/// The position of the first entry under a key.
fn find_key(entries: &Vec<(Yaml, Yaml)>, key: &str) -> (found: Option<usize>)
    ensures
        match found {
            Some(i) => i < entries@.len() && keys_of(entry_trees(entries@)).index_of_first(
                YamlTree::Text(key@),
            ) == Some(i as int) && has_key(entry_trees(entries@), key@),
            None => keys_of(entry_trees(entries@)).index_of_first(YamlTree::Text(key@)) is None
                && !has_key(entry_trees(entries@), key@),
        },
{
    let ghost all = entry_trees(entries@);
    let ghost keys = keys_of(all);
    for i in 0..entries.len()
        invariant
            all == entry_trees(entries@),
            keys == keys_of(all),
            forall|j: int| 0 <= j < i ==> keys[j] != YamlTree::Text(key@),
    {
        let found = match &entries[i].0 {
            Yaml::Text(name) => same_text(name.as_str(), key),
            _ => false,
        };
        assert(keys[i as int] == all[i as int].0);
        if found {
            proof {
                keys.index_of_first_ensures(YamlTree::Text(key@));
                assert(keys.contains(YamlTree::Text(key@)));
            }
            return Some(i);
        }
    }
    proof {
        keys.index_of_first_ensures(YamlTree::Text(key@));
        assert forall|i: int| 0 <= i < all.len() implies (#[trigger] all[i]).0 != YamlTree::Text(
            key@,
        ) by {
            assert(keys[i] == all[i].0);
        }
    }
    None
}

/// Sets the content under a key.
pub fn insert(entries: &mut Vec<(Yaml, Yaml)>, key: &str, content: Yaml)
    ensures
        entry_trees(final(entries)@) == with_field(entry_trees(old(entries)@), key@, content@),
        !has_key(entry_trees(old(entries)@), key@) ==> entry_trees(final(entries)@) == entry_trees(
            old(entries)@,
        ).push(field(key@, content@)),
{
    let ghost before = entry_trees(entries@);
    match find_key(entries, key) {
        Some(i) => {
            entries[i] = entry(key, content);
            assert(entry_trees(entries@) =~= before.update(i as int, field(key@, content@)));
        },
        None => {
            entries.push(entry(key, content));
            assert(entry_trees(entries@) =~= before.push(field(key@, content@)));
        },
    }
}

/// A mapping of the given entries.
pub fn mapping(entries: Vec<(Yaml, Yaml)>) -> (yaml: Yaml)
    ensures
        yaml@ == YamlTree::Mapping(entry_trees(entries@)),
{
    proof {
        lemma_mapping_tree(entries);
    }
    Yaml::Mapping(entries)
}

/// A sequence of the given items.
pub fn sequence(items: Vec<Yaml>) -> (yaml: Yaml)
    ensures
        yaml@ == YamlTree::Sequence(trees(items@)),
{
    proof {
        lemma_sequence_tree(items);
    }
    Yaml::Sequence(items)
}

impl Clone for Yaml {
    fn clone(&self) -> (copy: Self)
        ensures
            copy@ == self@,
        decreases self,
    {
        match self {
            Yaml::Null => Yaml::Null,
            Yaml::Bool(value) => Yaml::Bool(*value),
            Yaml::Unsigned(number) => Yaml::Unsigned(*number),
            Yaml::Negative(number) => Yaml::Negative(*number),
            Yaml::Float(number) => Yaml::Float(number.clone()),
            Yaml::Text(text) => Yaml::Text(text.clone()),
            Yaml::Sequence(items) => {
                let mut copies: Vec<Yaml> = Vec::new();
                for i in 0..items.len()
                    invariant
                        *self == Yaml::Sequence(*items),
                        copies@.len() == i,
                        forall|j: int| 0 <= j < i ==> (#[trigger] copies@[j])@ == items@[j]@,
                {
                    assert(decreases_to!(self => self->Sequence_0));
                    assert(decreases_to!(items => items[i as int]));
                    copies.push(items[i].clone());
                }
                proof {
                    lemma_sequence_tree(*items);
                    lemma_sequence_tree(copies);
                    assert(trees(copies@) =~= trees(items@));
                }
                Yaml::Sequence(copies)
            },
            Yaml::Mapping(entries) => {
                let mut copies: Vec<(Yaml, Yaml)> = Vec::new();
                for i in 0..entries.len()
                    invariant
                        *self == Yaml::Mapping(*entries),
                        copies@.len() == i,
                        forall|j: int|
                            0 <= j < i ==> (#[trigger] copies@[j]).0@ == entries@[j].0@
                                && copies@[j].1@ == entries@[j].1@,
                {
                    assert(decreases_to!(self => self->Mapping_0));
                    assert(decreases_to!(entries => entries[i as int]));
                    copies.push((entries[i].0.clone(), entries[i].1.clone()));
                }
                proof {
                    lemma_mapping_tree(*entries);
                    lemma_mapping_tree(copies);
                    assert(entry_trees(copies@) =~= entry_trees(entries@));
                }
                Yaml::Mapping(copies)
            },
            Yaml::Tagged(tag, inner) => Yaml::Tagged(tag.clone(), Box::new((**inner).clone())),
        }
    }
}

/// A copy of the entries of a mapping.
pub fn copy_entries(entries: &Vec<(Yaml, Yaml)>) -> (copies: Vec<(Yaml, Yaml)>)
    ensures
        entry_trees(copies@) == entry_trees(entries@),
{
    let mut copies: Vec<(Yaml, Yaml)> = Vec::new();
    for i in 0..entries.len()
        invariant
            copies@.len() == i,
            forall|j: int|
                0 <= j < i ==> (#[trigger] copies@[j]).0@ == entries@[j].0@ && copies@[j].1@
                    == entries@[j].1@,
    {
        copies.push((entries[i].0.clone(), entries[i].1.clone()));
    }
    assert(entry_trees(copies@) =~= entry_trees(entries@));
    copies
}

// ---------------------------------------------------------------------------
// Parsing
// ---------------------------------------------------------------------------

/// The outermost level of a parsed value.
pub enum YamlNode {
    Null,
    Bool(bool),
    Unsigned(u64),
    Negative(i64),
    Float(String),
    Text(String),
    Sequence(Vec<serde_yaml::Value>),
    Mapping(Vec<(serde_yaml::Value, serde_yaml::Value)>),
    Tagged(String, serde_yaml::Value),
}

/// The data that a parsed value holds.
pub uninterp spec fn value_tree(value: serde_yaml::Value) -> YamlTree;

/// The tree of a parsed value, level by level.
pub open spec fn node_tree(node: YamlNode) -> YamlTree {
    match node {
        YamlNode::Null => YamlTree::Null,
        YamlNode::Bool(value) => YamlTree::Bool(value),
        YamlNode::Unsigned(number) => YamlTree::Integer(number as int),
        YamlNode::Negative(number) => YamlTree::Integer(number as int),
        YamlNode::Float(number) => YamlTree::Float(number@),
        YamlNode::Text(text) => YamlTree::Text(text@),
        YamlNode::Sequence(items) => YamlTree::Sequence(
            Seq::new(items@.len(), |i: int| value_tree(items@[i])),
        ),
        YamlNode::Mapping(entries) => YamlTree::Mapping(
            Seq::new(
                entries@.len(),
                |i: int| (value_tree(entries@[i].0), value_tree(entries@[i].1)),
            ),
        ),
        YamlNode::Tagged(tag, inner) => YamlTree::Tagged(tag@, Box::new(value_tree(inner))),
    }
}

/// Whether a text is what `serde_yaml` prints of some number that is no integer.
pub uninterp spec fn float_notation(text: Seq<char>) -> bool;

/// Whether a text is the name of a tag with one `!` before it.
pub open spec fn tag_form(tag: Seq<char>) -> bool {
    tag.len() > 1 && tag[0] == '!'
}

/// Whether no two entries have the same key.
pub open spec fn distinct_keys(entries: Seq<(YamlTree, YamlTree)>) -> bool {
    forall|i: int, j: int|
        0 <= i < j < entries.len() ==> (#[trigger] entries[i]).0 != (#[trigger] entries[j]).0
}

/// Whether the outermost level of a tree can stand in a YAML value: what is no integer is
/// in the notation of its own, a key stands once in a mapping, and a tag has its form.
pub open spec fn sound_level(tree: YamlTree) -> bool {
    match tree {
        YamlTree::Float(number) => float_notation(number),
        YamlTree::Mapping(entries) => distinct_keys(entries),
        YamlTree::Tagged(tag, _) => tag_form(tag),
        _ => true,
    }
}

/// Whether every level of a tree can stand in a YAML value.
pub open spec fn sound(tree: YamlTree) -> bool
    decreases tree,
{
    &&& sound_level(tree)
    &&& match tree {
        YamlTree::Sequence(items) => forall|i: int|
            0 <= i < items.len() ==> sound(#[trigger] items[i]),
        YamlTree::Mapping(entries) => forall|i: int|
            0 <= i < entries.len() ==> sound((#[trigger] entries[i]).0) && sound(entries[i].1),
        YamlTree::Tagged(_, inner) => sound(*inner),
        _ => true,
    }
}

/// A sequence is sound if its items are.
pub proof fn lemma_sound_sequence(items: Seq<YamlTree>)
    ensures
        sound(YamlTree::Sequence(items)) <==> forall|i: int|
            0 <= i < items.len() ==> sound(#[trigger] items[i]),
{
    assert(YamlTree::Sequence(items)->Sequence_0 == items);
}

/// A mapping is sound if its keys are different and its keys and contents are sound.
pub proof fn lemma_sound_mapping(entries: Seq<(YamlTree, YamlTree)>)
    ensures
        sound(YamlTree::Mapping(entries)) <==> distinct_keys(entries) && forall|i: int|
            0 <= i < entries.len() ==> sound((#[trigger] entries[i]).0) && sound(entries[i].1),
{
    assert(YamlTree::Mapping(entries)->Mapping_0 == entries);
}

/// The variants of `serde_yaml::Value`, each with what it holds; of its number type, the
/// unsigned integers, the other integers (`as_u64`, `as_i64`), and the text of what is no
/// integer. A mapping hands out its entries in their order (`Mapping::into_iter`), no two of
/// which have the same key, and a tag its text with one `!` before it.
#[verifier::external_body]
fn open_value(value: serde_yaml::Value) -> (node: YamlNode)
    ensures
        node_tree(node) == value_tree(value),
        node matches YamlNode::Float(number) ==> float_notation(number@),
        sound_level(node_tree(node)),
{
    match value {
        serde_yaml::Value::Null => YamlNode::Null,
        serde_yaml::Value::Bool(value) => YamlNode::Bool(value),
        serde_yaml::Value::Number(number) => match (number.as_u64(), number.as_i64()) {
            (Some(number), _) => YamlNode::Unsigned(number),
            (None, Some(number)) => YamlNode::Negative(number),
            (None, None) => YamlNode::Float(number.to_string()),
        },
        serde_yaml::Value::String(text) => YamlNode::Text(text),
        serde_yaml::Value::Sequence(items) => YamlNode::Sequence(items),
        serde_yaml::Value::Mapping(entries) => YamlNode::Mapping(entries.into_iter().collect()),
        serde_yaml::Value::Tagged(inner) => YamlNode::Tagged(inner.tag.to_string(), inner.value),
    }
}

/// The data of a parsed value.
pub fn from_value(value: serde_yaml::Value) -> (yaml: Yaml)
    ensures
        yaml@ == value_tree(value),
        sound(yaml@),
    decreases value_tree(value),
{
    let ghost whole = value_tree(value);
    match open_value(value) {
        YamlNode::Null => Yaml::Null,
        YamlNode::Bool(value) => Yaml::Bool(value),
        YamlNode::Unsigned(number) => Yaml::Unsigned(number),
        YamlNode::Negative(number) => Yaml::Negative(number),
        YamlNode::Float(number) => Yaml::Float(number),
        YamlNode::Text(text) => Yaml::Text(text),
        YamlNode::Sequence(items) => {
            let ghost parts = items@;
            let mut out: Vec<Yaml> = Vec::new();
            for item in it: items
                invariant
                    it.seq() == parts,
                    whole == value_tree(value),
                    whole == YamlTree::Sequence(
                        Seq::new(parts.len(), |i: int| value_tree(parts[i])),
                    ),
                    out@.len() == it.index(),
                    forall|i: int|
                        0 <= i < out@.len() ==> (#[trigger] out@[i])@ == value_tree(parts[i])
                            && sound(out@[i]@),
            {
                proof {
                    let i = it.index();
                    assert(decreases_to!(whole => whole->Sequence_0));
                    assert(decreases_to!(whole->Sequence_0 => (whole->Sequence_0)[i]));
                    assert((whole->Sequence_0)[i] == value_tree(item));
                }
                out.push(from_value(item));
            }
            proof {
                lemma_sequence_tree(out);
                assert(trees(out@) =~= whole->Sequence_0);
            }
            Yaml::Sequence(out)
        },
        YamlNode::Mapping(entries) => {
            let ghost parts = entries@;
            let mut out: Vec<(Yaml, Yaml)> = Vec::new();
            for entry in it: entries
                invariant
                    it.seq() == parts,
                    whole == value_tree(value),
                    whole == YamlTree::Mapping(
                        Seq::new(
                            parts.len(),
                            |i: int| (value_tree(parts[i].0), value_tree(parts[i].1)),
                        ),
                    ),
                    out@.len() == it.index(),
                    forall|i: int|
                        0 <= i < out@.len() ==> (#[trigger] out@[i]).0@ == value_tree(parts[i].0)
                            && out@[i].1@ == value_tree(parts[i].1) && sound(out@[i].0@) && sound(
                            out@[i].1@,
                        ),
            {
                proof {
                    let i = it.index();
                    assert(decreases_to!(whole => whole->Mapping_0));
                    assert(decreases_to!(whole->Mapping_0 => (whole->Mapping_0)[i]));
                    assert((whole->Mapping_0)[i] == (value_tree(entry.0), value_tree(entry.1)));
                    assert(decreases_to!((whole->Mapping_0)[i] => (whole->Mapping_0)[i].0));
                    assert(decreases_to!((whole->Mapping_0)[i] => (whole->Mapping_0)[i].1));
                }
                let key = from_value(entry.0);
                let content = from_value(entry.1);
                out.push((key, content));
            }
            proof {
                lemma_mapping_tree(out);
                assert(entry_trees(out@) =~= whole->Mapping_0);
            }
            Yaml::Mapping(out)
        },
        YamlNode::Tagged(tag, inner) => {
            assert(decreases_to!(whole => whole->Tagged_1));
            Yaml::Tagged(tag, Box::new(from_value(inner)))
        },
    }
}

/// The data of the YAML document that a text is, if it is one.
pub uninterp spec fn yaml_document(text: Seq<char>) -> Option<YamlTree>;

/// Whether a text holds none of the characters that make a mapping: `:` behind a key, `?`
/// before one, and `{`.
pub open spec fn unmarked(text: Seq<char>) -> bool {
    !text.contains(':') && !text.contains('?') && !text.contains('{')
}

/// `serde_yaml::from_str` into a `serde_yaml::Value`: the document, or an error; which of
/// them, and which data, depends on the text alone. The document is no mapping where the
/// text holds none of the characters at which the scanner begins one. Nothing is said of
/// the error.
#[verifier::external_body]
fn load_value(text: &str) -> (value: Result<serde_yaml::Value, serde_yaml::Error>)
    ensures
        match value {
            Ok(v) => yaml_document(text@) == Some(value_tree(v)) && (unmarked(text@)
                ==> !(untagged(value_tree(v)) is Mapping)),
            Err(_) => yaml_document(text@) is None,
        },
{
    serde_yaml::from_str(text)
}

/// Parses a text as one YAML document.
pub fn parse_yaml(text: &str) -> (document: Option<Yaml>)
    ensures
        match document {
            Some(yaml) => yaml_document(text@) == Some(yaml@) && sound(yaml@) && (unmarked(text@)
                ==> !(untagged(yaml@) is Mapping)),
            None => yaml_document(text@) is None,
        },
{
    match load_value(text) {
        Ok(value) => Some(from_value(value)),
        Err(_) => None,
    }
}

// ---------------------------------------------------------------------------
// Reading
// ---------------------------------------------------------------------------

/// A value without its tags.
pub open spec fn untagged(tree: YamlTree) -> YamlTree
    decreases tree,
{
    match tree {
        YamlTree::Tagged(_, inner) => untagged(*inner),
        _ => tree,
    }
}

/// What stands under a text as key in a mapping.
pub open spec fn entry_at(entries: Seq<(YamlTree, YamlTree)>, key: Seq<char>) -> Option<YamlTree>
    decreases entries.len(),
{
    if entries.len() == 0 {
        None
    } else if entries[0].0 == YamlTree::Text(key) {
        Some(entries[0].1)
    } else {
        entry_at(entries.skip(1), key)
    }
}

/// Under a key stands the content of the first entry with that key.
pub proof fn first_entry_counts(entries: Seq<(YamlTree, YamlTree)>, at: int, key: Seq<char>)
    requires
        0 <= at < entries.len(),
        entries[at].0 == YamlTree::Text(key),
        forall|i: int| 0 <= i < at ==> (#[trigger] entries[i]).0 != YamlTree::Text(key),
    ensures
        entry_at(entries, key) == Some(entries[at].1),
    decreases at,
{
    if at > 0 {
        assert(entries[0].0 != YamlTree::Text(key));
        first_entry_counts(entries.skip(1), at - 1, key);
    }
}

/// Nothing stands under what is no key.
pub proof fn no_entry_without_key(entries: Seq<(YamlTree, YamlTree)>, key: Seq<char>)
    requires
        !has_key(entries, key),
    ensures
        entry_at(entries, key) is None,
    decreases entries.len(),
{
    if entries.len() > 0 {
        let rest = entries.skip(1);
        assert(entries[0].0 != YamlTree::Text(key));
        assert forall|i: int| 0 <= i < rest.len() implies (#[trigger] rest[i]).0 != YamlTree::Text(
            key,
        ) by {
            assert(rest[i] == entries[i + 1]);
        }
        no_entry_without_key(rest, key);
    }
}

/// An entry that was set reads back, and what stands under other keys is as before.
pub proof fn set_entry_reads_back(
    entries: Seq<(YamlTree, YamlTree)>,
    key: Seq<char>,
    content: YamlTree,
    other: Seq<char>,
)
    requires
        other != key,
    ensures
        entry_at(with_field(entries, key, content), key) == Some(content),
        entry_at(with_field(entries, key, content), other) == entry_at(entries, other),
{
    let keys = keys_of(entries);
    let changed = with_field(entries, key, content);
    keys.index_of_first_ensures(YamlTree::Text(key));
    let at = match keys.index_of_first(YamlTree::Text(key)) {
        Some(i) => i,
        None => entries.len() as int,
    };
    assert forall|i: int| 0 <= i < at implies (#[trigger] changed[i]).0 != YamlTree::Text(key) by {
        assert(keys[i] == entries[i].0);
        if keys.index_of_first(YamlTree::Text(key)) is None {
            assert(!keys.contains(YamlTree::Text(key)));
        }
    }
    first_entry_counts(changed, at, key);
    if has_key(entries, other) {
        lemma_first_with(entries, other);
        let there = choose|i: int|
            0 <= i < entries.len() && (#[trigger] entries[i]).0 == YamlTree::Text(other) && (
            forall|j: int| 0 <= j < i ==> (#[trigger] entries[j]).0 != YamlTree::Text(other));
        first_entry_counts(entries, there, other);
        assert(changed[there] == entries[there]) by {
            if there == at {
                assert(keys[at] == entries[at].0);
            }
        }
        assert forall|j: int| 0 <= j < there implies (#[trigger] changed[j]).0 != YamlTree::Text(
            other,
        ) by {
            assert(j == at || changed[j] == entries[j]);
        }
        first_entry_counts(changed, there, other);
    } else {
        assert(!has_key(changed, other)) by {
            assert forall|i: int| 0 <= i < changed.len() implies (#[trigger] changed[i]).0
                != YamlTree::Text(other) by {
                assert(i == at || changed[i] == entries[i]);
            }
        }
        no_entry_without_key(entries, other);
        no_entry_without_key(changed, other);
    }
}

proof fn lemma_first_with(entries: Seq<(YamlTree, YamlTree)>, key: Seq<char>)
    requires
        has_key(entries, key),
    ensures
        exists|i: int|
            0 <= i < entries.len() && (#[trigger] entries[i]).0 == YamlTree::Text(key) && (
            forall|j: int| 0 <= j < i ==> (#[trigger] entries[j]).0 != YamlTree::Text(key)),
{
    let keys = keys_of(entries);
    let some = choose|i: int| 0 <= i < entries.len() && (#[trigger] entries[i]).0 == YamlTree::Text(key);
    assert(keys[some] == YamlTree::Text(key));
    assert(keys.contains(YamlTree::Text(key)));
    keys.index_of_first_ensures(YamlTree::Text(key));
    let first = keys.index_of_first(YamlTree::Text(key))->0;
    assert(entries[first].0 == keys[first]);
    assert forall|j: int| 0 <= j < first implies (#[trigger] entries[j]).0 != YamlTree::Text(key) by {
        assert(keys[j] == entries[j].0);
    }
}

/// What stands under a key in a value; nothing where the value is no mapping. Tags do not
/// count.
pub open spec fn member(tree: YamlTree, key: Seq<char>) -> Option<YamlTree> {
    match untagged(tree) {
        YamlTree::Mapping(entries) => entry_at(entries, key),
        _ => None,
    }
}

/// The items of a value that is a sequence.
pub open spec fn items_of(tree: YamlTree) -> Option<Seq<YamlTree>> {
    match untagged(tree) {
        YamlTree::Sequence(items) => Some(items),
        _ => None,
    }
}

/// The text of a value that is one.
pub open spec fn text_of(tree: YamlTree) -> Option<Seq<char>> {
    match untagged(tree) {
        YamlTree::Text(text) => Some(text),
        _ => None,
    }
}

impl Yaml {
    /// The value without its tags.
    pub fn untag(&self) -> (inner: &Yaml)
        ensures
            inner@ == untagged(self@),
        decreases self,
    {
        match self {
            Yaml::Tagged(_, inner) => inner.untag(),
            _ => self,
        }
    }

    /// What stands under a key, if the value is a mapping.
    pub fn get(&self, key: &str) -> (found: Option<&Yaml>)
        ensures
            match found {
                Some(yaml) => member(self@, key@) == Some(yaml@),
                None => member(self@, key@) is None,
            },
    {
        match self.untag() {
            Yaml::Mapping(entries) => {
                let ghost all = entry_trees(entries@);
                proof {
                    lemma_mapping_tree(*entries);
                    assert(all.skip(0) =~= all);
                }
                for i in 0..entries.len()
                    invariant
                        all == entry_trees(entries@),
                        member(self@, key@) == entry_at(all, key@),
                        entry_at(all, key@) == entry_at(all.skip(i as int), key@),
                {
                    assert(all.skip(i as int)[0] == all[i as int]);
                    assert(all.skip(i as int).skip(1) =~= all.skip(i + 1));
                    if let Yaml::Text(name) = &entries[i].0 {
                        if same_text(name.as_str(), key) {
                            return Some(&entries[i].1);
                        }
                    }
                }
                None
            },
            _ => None,
        }
    }

    /// The items, if the value is a sequence.
    pub fn as_sequence(&self) -> (items: Option<&Vec<Yaml>>)
        ensures
            match items {
                Some(list) => items_of(self@) == Some(trees(list@)),
                None => items_of(self@) is None,
            },
    {
        match self.untag() {
            Yaml::Sequence(items) => {
                proof {
                    lemma_sequence_tree(*items);
                }
                Some(items)
            },
            _ => None,
        }
    }

    /// The text, if the value is one.
    pub fn as_str(&self) -> (text: Option<&str>)
        ensures
            match text {
                Some(t) => text_of(self@) == Some(t@),
                None => text_of(self@) is None,
            },
    {
        match self.untag() {
            Yaml::Text(text) => Some(text.as_str()),
            _ => None,
        }
    }
}

/// Tags do not count when a value is read, and only a mapping has members, only a sequence
/// items and only a text a text.
pub proof fn tags_do_not_count(tag: Seq<char>, inner: YamlTree, key: Seq<char>)
    ensures
        ({
            let tree = YamlTree::Tagged(tag, Box::new(inner));
            &&& member(tree, key) == member(inner, key)
            &&& items_of(tree) == items_of(inner)
            &&& text_of(tree) == text_of(inner)
        }),
        inner matches YamlTree::Mapping(entries) ==> {
            &&& member(inner, key) == entry_at(entries, key)
            &&& items_of(inner) is None
            &&& text_of(inner) is None
        },
        inner matches YamlTree::Sequence(items) ==> {
            &&& member(inner, key) is None
            &&& items_of(inner) == Some(items)
            &&& text_of(inner) is None
        },
        inner matches YamlTree::Text(text) ==> {
            &&& member(inner, key) is None
            &&& items_of(inner) is None
            &&& text_of(inner) == Some(text)
        },
        inner is Null || inner is Bool || inner is Integer || inner is Float ==> {
            &&& member(inner, key) is None
            &&& items_of(inner) is None
            &&& text_of(inner) is None
        },
{
    reveal_with_fuel(untagged, 2);
}

/// A new entry comes last, and one whose key is there takes the place of the first entry of
/// that key. No other entry moves or changes.
pub proof fn set_entry_keeps_the_others(
    entries: Seq<(YamlTree, YamlTree)>,
    key: Seq<char>,
    content: YamlTree,
    at: int,
)
    ensures
        !has_key(entries, key) ==> with_field(entries, key, content) == entries.push(
            (YamlTree::Text(key), content),
        ),
        0 <= at < entries.len() && entries[at].0 == YamlTree::Text(key) && (forall|i: int|
            0 <= i < at ==> (#[trigger] entries[i]).0 != YamlTree::Text(key)) ==> with_field(
            entries,
            key,
            content,
        ) == entries.take(at).push((YamlTree::Text(key), content)) + entries.skip(at + 1),
{
    let keys = keys_of(entries);
    keys.index_of_first_ensures(YamlTree::Text(key));
    if !has_key(entries, key) {
        assert(!keys.contains(YamlTree::Text(key))) by {
            if keys.contains(YamlTree::Text(key)) {
                let i = keys.index_of(YamlTree::Text(key));
                assert(entries[i].0 == keys[i]);
            }
        }
    }
    if 0 <= at < entries.len() && entries[at].0 == YamlTree::Text(key) && (forall|i: int|
        0 <= i < at ==> (#[trigger] entries[i]).0 != YamlTree::Text(key)) {
        assert(keys[at] == YamlTree::Text(key));
        assert(keys.contains(YamlTree::Text(key)));
        let first = keys.index_of_first(YamlTree::Text(key))->0;
        assert(keys[first] == entries[first].0);
        assert(first == at);
        assert(with_field(entries, key, content) =~= entries.take(at).push(
            (YamlTree::Text(key), content),
        ) + entries.skip(at + 1));
    }
}

/// A value is spoken of as what it holds: a scalar as itself, a sequence by its items and a
/// mapping by its entries, in their order.
pub proof fn values_are_spoken_of(
    value: bool,
    unsigned: u64,
    negative: i64,
    text: String,
    items: Vec<Yaml>,
    entries: Vec<(Yaml, Yaml)>,
    inner: Box<Yaml>,
)
    ensures
        (Yaml::Null)@ == YamlTree::Null,
        Yaml::Bool(value)@ == YamlTree::Bool(value),
        Yaml::Unsigned(unsigned)@ == YamlTree::Integer(unsigned as int),
        Yaml::Negative(negative)@ == YamlTree::Integer(negative as int),
        Yaml::Float(text)@ == YamlTree::Float(text@),
        Yaml::Text(text)@ == YamlTree::Text(text@),
        Yaml::Sequence(items)@ == YamlTree::Sequence(
            items@.map_values(|item: Yaml| item@),
        ),
        Yaml::Mapping(entries)@ == YamlTree::Mapping(
            entries@.map_values(|entry: (Yaml, Yaml)| (entry.0@, entry.1@)),
        ),
        Yaml::Tagged(text, inner)@ == YamlTree::Tagged(text@, Box::new((*inner)@)),
{
    lemma_sequence_tree(items);
    lemma_mapping_tree(entries);
    assert(trees(items@) =~= items@.map_values(|item: Yaml| item@));
    assert(entry_trees(entries@) =~= entries@.map_values(
        |entry: (Yaml, Yaml)| (entry.0@, entry.1@),
    ));
}

} // verus!
