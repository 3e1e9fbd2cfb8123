//! The document that schemas are read from: a tree of plain values.

use vstd::prelude::*;
use crate::util::text::text_eq;

verus! {

/// A node of a document.
#[derive(Debug)]
pub enum Node {
    /// The null value.
    Null,
    /// A boolean.
    Bool(bool),
    /// A number: its value where it is an integer that is not negative
    /// and fits 64 bits, nothing for any other number.
    Number(Option<u64>),
    /// A string.
    Str(String),
    /// A sequence of nodes.
    Sequence(Vec<Node>),
    /// A mapping, as its entries of key and value in the order of the
    /// document.
    Mapping(Vec<(Node, Node)>),
    /// A node that carries a tag.
    Tagged,
}

/// The text of a key, if the key is a string.
pub open spec fn key_text(key: Node) -> Option<Seq<char>> {
    match key {
        Node::Str(s) => Some(s@),
        _ => None,
    }
}

/// Whether the keys of the entries are strings, no two of them alike.
pub open spec fn distinct_keys(e: Seq<(Node, Node)>) -> bool {
    &&& forall|i: int| 0 <= i < e.len() ==> key_text(#[trigger] e[i].0) is Some
    &&& forall|i: int, j: int|
        0 <= i < j < e.len() ==> key_text(#[trigger] e[i].0) != key_text(#[trigger] e[j].0)
}

/// Whether an entry has the key `key`.
pub open spec fn has_key(e: Seq<(Node, Node)>, key: Seq<char>) -> bool {
    exists|i: int| 0 <= i < e.len() && key_text(#[trigger] e[i].0) == Some(key)
}

/// The place of the entry with the key `key`.
pub open spec fn key_index(e: Seq<(Node, Node)>, key: Seq<char>) -> int {
    choose|i: int| 0 <= i < e.len() && key_text(#[trigger] e[i].0) == Some(key)
}

/// Whether `key` is a string, one of `allowed`.
pub open spec fn allowed_key(key: Node, allowed: Seq<Seq<char>>) -> bool {
    exists|a: int| 0 <= a < allowed.len() && key_text(key) == Some(#[trigger] allowed[a])
}

/// Whether every key is one of `allowed`.
pub open spec fn keys_among(e: Seq<(Node, Node)>, allowed: Seq<Seq<char>>) -> bool {
    forall|i: int| 0 <= i < e.len() ==> allowed_key(#[trigger] e[i].0, allowed)
}

/// The texts of a list of string slices.
pub open spec fn strs_view(items: Seq<&str>) -> Seq<Seq<char>> {
    Seq::new(items.len(), |i: int| items[i]@)
}

/// Among distinct keys, the entry with a given key stands in one place.
pub proof fn lemma_key_index(e: Seq<(Node, Node)>, key: Seq<char>, i: int)
    requires
        distinct_keys(e),
        0 <= i < e.len(),
        key_text(e[i].0) == Some(key),
    ensures
        has_key(e, key),
        key_index(e, key) == i,
{
    let k = key_index(e, key);
    if k < i {
        assert(key_text(e[k].0) != key_text(e[i].0));
    } else if i < k {
        assert(key_text(e[i].0) != key_text(e[k].0));
    }
}

/// The place of the entry with the key `key`, if there is one.
pub fn find_key(entries: &Vec<(Node, Node)>, key: &str) -> (r: Option<usize>)
    ensures
        match r {
            Some(i) => i < entries@.len() && key_text(entries@[i as int].0) == Some(key@),
            None => !has_key(entries@, key@),
        },
{
    let mut i: usize = 0;
    while i < entries.len()
        invariant
            0 <= i <= entries.len(),
            forall|j: int| 0 <= j < i ==> key_text(#[trigger] entries@[j].0) != Some(key@),
        decreases entries.len() - i,
    {
        match &entries[i].0 {
            Node::Str(s) => {
                if text_eq(s.as_str(), key) {
                    return Some(i);
                }
            },
            _ => {},
        }
        i = i + 1;
    }
    None
}

/// Whether the keys of the entries are strings, no two of them alike.
pub fn has_distinct_keys(entries: &Vec<(Node, Node)>) -> (r: bool)
    ensures
        r == distinct_keys(entries@),
{
    let mut i: usize = 0;
    while i < entries.len()
        invariant
            0 <= i <= entries.len(),
            forall|a: int| 0 <= a < i ==> key_text(#[trigger] entries@[a].0) is Some,
            forall|a: int, b: int|
                0 <= a < b < i ==> key_text(#[trigger] entries@[a].0) != key_text(
                    #[trigger] entries@[b].0,
                ),
        decreases entries.len() - i,
    {
        match &entries[i].0 {
            Node::Str(s) => {
                let mut j: usize = 0;
                while j < i
                    invariant
                        0 <= j <= i < entries.len(),
                        entries@[i as int].0 == Node::Str(*s),
                        forall|a: int|
                            0 <= a < j ==> key_text(#[trigger] entries@[a].0) != Some(s@),
                    decreases i - j,
                {
                    match &entries[j].0 {
                        Node::Str(t) => {
                            if text_eq(t.as_str(), s.as_str()) {
                                assert(key_text(entries@[j as int].0) == key_text(
                                    entries@[i as int].0,
                                ));
                                return false;
                            }
                        },
                        _ => {},
                    }
                    j = j + 1;
                }
            },
            _ => {
                assert(key_text(entries@[i as int].0) is None);
                return false;
            },
        }
        i = i + 1;
    }
    true
}

/// Whether `key` is a string, one of `allowed`.
pub fn is_allowed_key(key: &Node, allowed: &Vec<&str>) -> (r: bool)
    ensures
        r == allowed_key(*key, strs_view(allowed@)),
{
    let ghost names = strs_view(allowed@);
    match key {
        Node::Str(s) => {
            let mut a: usize = 0;
            while a < allowed.len()
                invariant
                    0 <= a <= allowed.len(),
                    names == strs_view(allowed@),
                    *key == Node::Str(*s),
                    forall|b: int| 0 <= b < a ==> s@ != #[trigger] names[b],
                decreases allowed.len() - a,
            {
                if text_eq(s.as_str(), allowed[a]) {
                    assert(names[a as int] == s@);
                    return true;
                }
                a = a + 1;
            }
            false
        },
        _ => false,
    }
}

/// Whether every key of the entries is one of `allowed`.
pub fn only_keys(entries: &Vec<(Node, Node)>, allowed: &Vec<&str>) -> (r: bool)
    ensures
        r == keys_among(entries@, strs_view(allowed@)),
{
    let mut i: usize = 0;
    while i < entries.len()
        invariant
            0 <= i <= entries.len(),
            forall|j: int|
                0 <= j < i ==> allowed_key(#[trigger] entries@[j].0, strs_view(allowed@)),
        decreases entries.len() - i,
    {
        if !is_allowed_key(&entries[i].0, allowed) {
            return false;
        }
        i = i + 1;
    }
    true
}

} // verus!
