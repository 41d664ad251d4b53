//! The merge rule: when an incoming record replaces the one a replica holds.

use vstd::prelude::*;
use crate::record::{supersedes, LwwRecord, RecordView, UpdateMessage, UpdateView};

verus! {

/// The records of a store: one per key that was ever written.
pub type Records = Map<Seq<char>, RecordView>;

/// An incoming record is adopted where the key has no record yet, or where it
/// is strictly later than the record held.
pub open spec fn adopts(local: Option<RecordView>, incoming: RecordView) -> bool {
    match local {
        None => true,
        Some(l) => supersedes(incoming, l),
    }
}

/// The record a key holds, if any.
pub open spec fn held(m: Records, key: Seq<char>) -> Option<RecordView> {
    if m.contains_key(key) {
        Some(m[key])
    } else {
        None
    }
}

/// Whether merging `incoming` at `key` changes the records.
pub open spec fn merge_changes(m: Records, key: Seq<char>, incoming: RecordView) -> bool {
    adopts(held(m, key), incoming)
}

/// The records after merging `incoming` at `key`.
pub open spec fn merge_one(m: Records, key: Seq<char>, incoming: RecordView) -> Records {
    if merge_changes(m, key, incoming) {
        m.insert(key, incoming)
    } else {
        m
    }
}

/// The records after merging a sequence of updates, first to last.
pub open spec fn merge_all(m: Records, updates: Seq<UpdateView>) -> Records
    decreases updates.len(),
{
    if updates.len() == 0 {
        m
    } else {
        let u = updates.last();
        merge_one(merge_all(m, updates.drop_last()), u.key, u.record)
    }
}

/// The updates of a sequence of messages.
pub open spec fn views(s: Seq<UpdateMessage>) -> Seq<UpdateView> {
    s.map_values(|u: UpdateMessage| u@)
}

/// No two updates of `s` are for the same key.
pub open spec fn distinct_keys(s: Seq<UpdateView>) -> bool {
    forall|i: int, j: int| 0 <= i < j < s.len() ==> s[i].key != s[j].key
}

/// `s` lists the records `m` exactly: one entry for each key, with the
/// record that the key holds.
pub open spec fn is_snapshot_of(s: Seq<UpdateView>, m: Records) -> bool {
    &&& distinct_keys(s)
    &&& forall|i: int|
        0 <= i < s.len() ==> m.contains_key(#[trigger] s[i].key) && m[s[i].key] == s[i].record
    &&& forall|k: Seq<char>| #[trigger]
        m.contains_key(k) ==> exists|i: int| 0 <= i < s.len() && #[trigger] s[i].key == k
}

/// Decides whether `incoming` replaces `local`, the record held for the same
/// key, if there is one.
pub fn resolve(local: Option<&LwwRecord>, incoming: &LwwRecord) -> (changed: bool)
    ensures
        changed == adopts(
            match local {
                Some(l) => Some(l@),
                None => None,
            },
            incoming@,
        ),
{
    match local {
        Some(l) => incoming.supersedes(l),
        None => true,
    }
}

} // verus!
