//! The self-describing tree that chunk payloads decode into, restricted to the
//! tag kinds that chunk decoding reads.

use vstd::prelude::*;

verus! {

/// One node of a decoded tree document.
#[derive(Debug)]
pub enum Tag {
    Byte(i8),
    Int(i32),
    Str(String),
    LongArray(Vec<i64>),
    List(Vec<Tag>),
    /// Named children, in document order.
    Compound(Vec<(String, Tag)>),
    /// A tag kind that chunk decoding never reads.
    Other,
}

/// The first child named `key` among `entries`, searching from position `i`.
pub open spec fn entry_from(entries: Seq<(String, Tag)>, key: Seq<char>, i: int) -> Option<Tag>
    decreases entries.len() - i,
{
    if i < 0 || i >= entries.len() {
        None
    } else if entries[i].0@ == key {
        Some(entries[i].1)
    } else {
        entry_from(entries, key, i + 1)
    }
}

/// The child named `key` of a compound node; `None` for any other node.
pub open spec fn child(t: Tag, key: Seq<char>) -> Option<Tag> {
    match t {
        Tag::Compound(entries) => entry_from(entries@, key, 0),
        _ => None,
    }
}

/// Looks up the child named `key` of a compound node.
pub fn get_child<'a>(t: &'a Tag, key: &str) -> (r: Option<&'a Tag>)
    ensures
        match r {
            Some(x) => child(*t, key@) == Some(*x),
            None => child(*t, key@) is None,
        },
{
    match t {
        Tag::Compound(entries) => {
            let k = key.to_owned();
            let mut i: usize = 0;
            while i < entries.len()
                invariant
                    i <= entries@.len(),
                    *t == Tag::Compound(*entries),
                    k@ == key@,
                    entry_from(entries@, key@, 0) == entry_from(entries@, key@, i as int),
                decreases entries.len() - i,
            {
                if entries[i].0 == k {
                    assert(entry_from(entries@, key@, i as int) == Some(entries@[i as int].1));
                    return Some(&entries[i].1);
                }
                i += 1;
            }
            None
        },
        _ => None,
    }
}

} // verus!
