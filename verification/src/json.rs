//! JSON documents as trees of plain values.
//!
//! The text is read by `serde_json`; what it finds is carried over, node by
//! node, into [`Json`], on which the rest of the crate works.
use vstd::prelude::*;

verus! {

/// A JSON document.
///
/// A number is kept as the text `serde_json` prints for it; nothing in this
/// crate computes with numbers. The entries of an object are in the order in
/// which `serde_json` hands them out.
#[derive(Debug, PartialEq, Eq)]
pub enum Json {
    Null,
    Bool(bool),
    Number(String),
    Text(String),
    Array(Vec<Json>),
    Object(Vec<(String, Json)>),
}

/// The mathematical value of a [`Json`].
pub enum Tree {
    Null,
    Bool(bool),
    Number(Seq<char>),
    Text(Seq<char>),
    Array(Seq<Tree>),
    Object(Seq<(Seq<char>, Tree)>),
}

/// The tree of a document, node by node.
pub open spec fn tree_of(json: Json) -> Tree
    decreases json,
{
    match json {
        Json::Null => Tree::Null,
        Json::Bool(b) => Tree::Bool(b),
        Json::Number(n) => Tree::Number(n@),
        Json::Text(s) => Tree::Text(s@),
        Json::Array(items) => Tree::Array(
            Seq::new(
                items.len() as nat,
                |i: int|
                    if 0 <= i < items.len() {
                        tree_of(items[i])
                    } else {
                        Tree::Null
                    },
            ),
        ),
        Json::Object(entries) => Tree::Object(
            Seq::new(
                entries.len() as nat,
                |i: int|
                    if 0 <= i < entries.len() {
                        (entries[i].0@, tree_of(entries[i].1))
                    } else {
                        (Seq::empty(), Tree::Null)
                    },
            ),
        ),
    }
}

impl View for Json {
    type V = Tree;

    open spec fn view(&self) -> Tree {
        tree_of(*self)
    }
}

/// The tree of an object holds the trees of its entries, in order.
pub proof fn lemma_object_tree(entries: Vec<(String, Json)>)
    ensures
        Json::Object(entries)@ matches Tree::Object(all) && all.len() == entries.len() && forall|
            k: int,
        |
            0 <= k < entries.len() ==> #[trigger] all[k] == (entries[k].0@, entries[k].1@),
{
}

/// The tree of an array holds the trees of its items, in order.
pub proof fn lemma_array_tree(items: Vec<Json>)
    ensures
        Json::Array(items)@ matches Tree::Array(all) && all.len() == items.len() && forall|k: int|
            0 <= k < items.len() ==> #[trigger] all[k] == items[k]@,
{
}

/// The value of the first entry named `name`, if there is one.
pub open spec fn lookup(entries: Seq<(Seq<char>, Tree)>, name: Seq<char>) -> Option<Tree>
    decreases entries.len(),
{
    if entries.len() == 0 {
        None
    } else if entries[0].0 == name {
        Some(entries[0].1)
    } else {
        lookup(entries.drop_first(), name)
    }
}

/// What `serde_json::from_slice` makes of `text` when asked for a
/// `serde_json::Value`: the tree of the document, or `None` where it reports
/// an error.
pub uninterp spec fn parsed(text: Seq<u8>) -> Option<Tree>;

/// The tree that a `serde_json::Value` holds.
pub uninterp spec fn value_tree(value: serde_json::Value) -> Tree;

/// `serde_json::Value`, carried through as it is: nothing of its inside is
/// known here but the tree it holds.
#[verifier::external_type_specification]
#[verifier::external_body]
pub struct ExValue(serde_json::Value);

/// `serde_json::Error`, of which nothing is read.
#[verifier::external_type_specification]
#[verifier::external_body]
pub struct ExError(serde_json::Error);

/// Calls `serde_json::from_slice` for a `serde_json::Value`. Trusted: the
/// outcome is a function of the text alone; on success the value holds the
/// tree of the document.
#[verifier::external_body]
fn read_value(text: &[u8]) -> (r: Result<serde_json::Value, serde_json::Error>)
    ensures
        match r {
            Ok(value) => parsed(text@) == Some(value_tree(value)),
            Err(_) => parsed(text@) is None,
        },
{
    serde_json::from_slice::<serde_json::Value>(text)
}

/// Carries a `serde_json::Value` over into a [`Json`], one arm for each of
/// its variants. Trusted: the result has the tree that the value holds.
#[verifier::external_body]
fn lift(value: &serde_json::Value) -> (json: Json)
    ensures
        json@ == value_tree(*value),
{
    match value {
        serde_json::Value::Null => Json::Null,
        serde_json::Value::Bool(b) => Json::Bool(*b),
        serde_json::Value::Number(n) => Json::Number(n.to_string()),
        serde_json::Value::String(s) => Json::Text(s.clone()),
        serde_json::Value::Array(items) => Json::Array(items.iter().map(lift).collect()),
        serde_json::Value::Object(entries) => Json::Object(
            entries.iter().map(|(k, v)| (k.clone(), lift(v))).collect(),
        ),
    }
}

/// Reads a JSON document. `None` when the text is not one.
pub fn parse(text: &[u8]) -> (r: Option<Json>)
    ensures
        r is Some <==> parsed(text@) is Some,
        r matches Some(json) ==> parsed(text@) == Some(json@),
{
    match read_value(text) {
        Ok(value) => Some(lift(&value)),
        Err(_) => None,
    }
}

impl Json {
    /// The value of the first entry named `name` when this is an object.
    pub fn field(&self, name: &str) -> (r: Option<&Json>)
        ensures
            match self@ {
                Tree::Object(entries) => match r {
                    Some(found) => lookup(entries, name@) == Some(found@),
                    None => lookup(entries, name@) is None,
                },
                _ => r is None,
            },
    {
        match self {
            Json::Object(entries) => {
                let wanted = String::from_str(name);
                let ghost all = self@->Object_0;
                assert(all.skip(0) =~= all);
                let mut i: usize = 0;
                while i < entries.len()
                    invariant
                        i <= entries.len(),
                        wanted@ == name@,
                        self@ == Tree::Object(all),
                        all.len() == entries.len(),
                        forall|k: int|
                            0 <= k < entries.len() ==> all[k] == (
                                #[trigger] entries[k].0@,
                                entries[k].1@,
                            ),
                        lookup(all, name@) == lookup(all.skip(i as int), name@),
                    decreases entries.len() - i,
                {
                    proof {
                        let rest = all.skip(i as int);
                        assert(rest[0] == all[i as int]);
                        assert(rest.drop_first() =~= all.skip(i + 1));
                    }
                    if entries[i].0 == wanted {
                        assert(all[i as int].0 == name@);
                        return Some(&entries[i].1);
                    }
                    i += 1;
                }
                None
            },
            _ => None,
        }
    }
}

} // verus!
