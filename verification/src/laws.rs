//! Why replicas converge: what the merge rule guarantees.
//!
//! The laws are stated over the records of a store and the spec functions
//! that the contracts of `CrdtStore` use, so each one speaks of what the
//! store's methods do.

use vstd::prelude::*;
use vstd::seq_lib::to_multiset_contains;
use crate::merge::{
    distinct_keys, held, is_snapshot_of, merge_all, merge_changes, merge_one, Records,
};
use crate::record::{
    lemma_supersedes_asymmetric, lemma_supersedes_irreflexive, lemma_supersedes_total,
    lemma_supersedes_transitive, same_stamp, supersedes, RecordView, UpdateView,
};

verus! {

/// Updates of `s` for one key that carry the same timestamp and author carry
/// the same record: no replica wrote a key twice under one timestamp.
pub open spec fn stamps_identify(s: Seq<UpdateView>) -> bool {
    forall|i: int, j: int|
        0 <= i < s.len() && 0 <= j < s.len() && (#[trigger] s[i]).key == (#[trigger] s[j]).key
            && same_stamp(s[i].record, s[j].record) ==> s[i].record == s[j].record
}

/// Some update of `s` is for `key`.
pub open spec fn mentions(s: Seq<UpdateView>, key: Seq<char>) -> bool {
    exists|i: int| 0 <= i < s.len() && (#[trigger] s[i]).key == key
}

/// Some update of `s` brings the record `r` for `key`.
pub open spec fn brings(s: Seq<UpdateView>, key: Seq<char>, r: RecordView) -> bool {
    exists|i: int| 0 <= i < s.len() && (#[trigger] s[i]).key == key && s[i].record == r
}

/// Merging an update a second time changes nothing: the second merge
/// reports no change and leaves the records as the first one left them.
pub proof fn lemma_merge_idempotent(m: Records, key: Seq<char>, r: RecordView)
    ensures
        !merge_changes(merge_one(m, key, r), key, r),
        merge_one(merge_one(m, key, r), key, r) == merge_one(m, key, r),
{
    lemma_supersedes_irreflexive(r, r);
}

/// Two updates give the same records in either order, unless they are two
/// different records for one key under the same timestamp and author.
pub proof fn lemma_merge_commutes(
    m: Records,
    key_a: Seq<char>,
    a: RecordView,
    key_b: Seq<char>,
    b: RecordView,
)
    requires
        key_a == key_b && same_stamp(a, b) ==> a == b,
    ensures
        merge_one(merge_one(m, key_a, a), key_b, b) == merge_one(merge_one(m, key_b, b), key_a, a),
{
    let ab = merge_one(merge_one(m, key_a, a), key_b, b);
    let ba = merge_one(merge_one(m, key_b, b), key_a, a);
    if key_a == key_b {
        lemma_supersedes_total(a, b);
        lemma_supersedes_irreflexive(a, a);
        if supersedes(a, b) {
            lemma_supersedes_asymmetric(a, b);
        }
        if supersedes(b, a) {
            lemma_supersedes_asymmetric(b, a);
        }
        if m.contains_key(key_a) {
            let l = m[key_a];
            if supersedes(a, b) && supersedes(b, l) {
                lemma_supersedes_transitive(a, b, l);
            }
            if supersedes(b, a) && supersedes(a, l) {
                lemma_supersedes_transitive(b, a, l);
            }
            if supersedes(a, l) && !supersedes(b, l) && supersedes(b, a) {
                lemma_supersedes_transitive(b, a, l);
            }
            if supersedes(b, l) && !supersedes(a, l) && supersedes(a, b) {
                lemma_supersedes_transitive(a, b, l);
            }
        }
    }
    assert(ab =~= ba);
}

/// What a key holds after a run of updates: a record exactly if it held one
/// before or an update is for it, and then the latest of them: the record
/// held before or one that an update brought for the key, than which no
/// update for the key is later. The record held before stays unless the
/// final one is later.
pub proof fn lemma_merge_all_keeps_latest(m: Records, s: Seq<UpdateView>, key: Seq<char>)
    ensures
        merge_all(m, s).contains_key(key) <==> m.contains_key(key) || mentions(s, key),
        forall|i: int|
            0 <= i < s.len() && (#[trigger] s[i]).key == key ==> !supersedes(
                s[i].record,
                merge_all(m, s)[key],
            ),
        m.contains_key(key) ==> merge_all(m, s)[key] == m[key] || supersedes(
            merge_all(m, s)[key],
            m[key],
        ),
        merge_all(m, s).contains_key(key) && !(m.contains_key(key) && merge_all(m, s)[key]
            == m[key]) ==> brings(s, key, merge_all(m, s)[key]),
    decreases s.len(),
{
    if s.len() > 0 {
        let init = s.drop_last();
        let last = s.len() - 1;
        let u = s[last];
        let before = merge_all(m, init);
        let after = merge_all(m, s);
        assert(after == merge_one(before, u.key, u.record));
        assert forall|i: int| 0 <= i < init.len() implies init[i] == s[i] by {}
        lemma_merge_all_keeps_latest(m, init, key);
        if mentions(init, key) {
            let i = choose|i: int| 0 <= i < init.len() && (#[trigger] init[i]).key == key;
            assert(s[i].key == key);
        }
        if before.contains_key(key) && brings(init, key, before[key]) {
            let i = choose|i: int|
                0 <= i < init.len() && (#[trigger] init[i]).key == key && init[i].record
                    == before[key];
            assert(s[i].key == key && s[i].record == before[key]);
        }
        if u.key == key {
            assert(s[last].key == key && s[last].record == u.record);
            lemma_supersedes_irreflexive(u.record, u.record);
            if before.contains_key(key) && supersedes(u.record, before[key]) {
                let f = before[key];
                assert forall|i: int| 0 <= i < s.len() && (#[trigger] s[i]).key == key implies
                    !supersedes(s[i].record, after[key]) by {
                    if i < last && supersedes(s[i].record, u.record) {
                        assert(init[i].key == key);
                        lemma_supersedes_transitive(s[i].record, u.record, f);
                    }
                }
                if m.contains_key(key) && f != m[key] {
                    lemma_supersedes_transitive(u.record, f, m[key]);
                }
            } else {
                assert forall|i: int| 0 <= i < s.len() && (#[trigger] s[i]).key == key implies
                    !supersedes(s[i].record, after[key]) by {
                    if i < last {
                        assert(init[i].key == key);
                    }
                }
            }
        } else {
            if mentions(s, key) {
                let i = choose|i: int| 0 <= i < s.len() && (#[trigger] s[i]).key == key;
                assert(init[i].key == key);
            }
            assert forall|i: int| 0 <= i < s.len() && (#[trigger] s[i]).key == key implies
                !supersedes(s[i].record, after[key]) by {
                assert(init[i].key == key);
            }
        }
    }
}

/// Under the conditions of `lemma_merge_order_independent`, a key holds the
/// same after either run.
proof fn lemma_same_at_key(m: Records, s1: Seq<UpdateView>, s2: Seq<UpdateView>, key: Seq<char>)
    requires
        stamps_identify(s1),
        forall|x: UpdateView| s1.contains(x) <==> s2.contains(x),
    ensures
        held(merge_all(m, s1), key) == held(merge_all(m, s2), key),
{
    assert forall|j: int| 0 <= j < s2.len() implies s1.contains(#[trigger] s2[j]) by {
        assert(s2.contains(s2[j]));
    }
    assert forall|i: int| 0 <= i < s1.len() implies s2.contains(#[trigger] s1[i]) by {
        assert(s1.contains(s1[i]));
    }
    lemma_merge_all_keeps_latest(m, s1, key);
    lemma_merge_all_keeps_latest(m, s2, key);
    let f1 = merge_all(m, s1);
    let f2 = merge_all(m, s2);
    if mentions(s1, key) {
        let i = choose|i: int| 0 <= i < s1.len() && (#[trigger] s1[i]).key == key;
        let j = choose|j: int| 0 <= j < s2.len() && s2[j] == s1[i];
        assert(s2[j].key == key);
    }
    if mentions(s2, key) {
        let j = choose|j: int| 0 <= j < s2.len() && (#[trigger] s2[j]).key == key;
        let i = choose|i: int| 0 <= i < s1.len() && s1[i] == s2[j];
        assert(s1[i].key == key);
    }
    if f1.contains_key(key) {
        let r1 = f1[key];
        let r2 = f2[key];
        let kept1 = m.contains_key(key) && r1 == m[key];
        let kept2 = m.contains_key(key) && r2 == m[key];
        if !kept1 {
            let i1 = choose|i: int|
                0 <= i < s1.len() && (#[trigger] s1[i]).key == key && s1[i].record == r1;
            let j1 = choose|j: int| 0 <= j < s2.len() && s2[j] == s1[i1];
            assert(!supersedes(s2[j1].record, r2));
            if kept2 {
                lemma_supersedes_irreflexive(r1, r2);
            }
        }
        if !kept2 {
            let j2 = choose|j: int|
                0 <= j < s2.len() && (#[trigger] s2[j]).key == key && s2[j].record == r2;
            let i2 = choose|i: int| 0 <= i < s1.len() && s1[i] == s2[j2];
            assert(!supersedes(s1[i2].record, r1));
            if !kept1 {
                let i1 = choose|i: int|
                    0 <= i < s1.len() && (#[trigger] s1[i]).key == key && s1[i].record == r1;
                lemma_supersedes_total(r1, r2);
                assert(s1[i1].record == s1[i2].record);
            }
        }
        assert(r1 == r2);
    }
}

/// Replicas converge: two runs of the same updates leave the same records,
/// in whatever order the updates arrive and however often each arrives,
/// provided that key, timestamp and author identify a record among them.
pub proof fn lemma_merge_order_independent(m: Records, s1: Seq<UpdateView>, s2: Seq<UpdateView>)
    requires
        stamps_identify(s1),
        forall|x: UpdateView| s1.contains(x) <==> s2.contains(x),
    ensures
        merge_all(m, s1) == merge_all(m, s2),
{
    let f1 = merge_all(m, s1);
    let f2 = merge_all(m, s2);
    assert forall|k: Seq<char>|
        #![trigger f1.dom().contains(k)]
        #![trigger f2.dom().contains(k)]
        f1.dom().contains(k) == f2.dom().contains(k) && (f1.dom().contains(k) ==> f1[k]
            == f2[k]) by {
        lemma_same_at_key(m, s1, s2, k);
    }
    assert(f1 =~= f2);
}

/// The updates give the same records in every permutation, provided that
/// key, timestamp and author identify a record among them.
pub proof fn lemma_merge_permutation(m: Records, s1: Seq<UpdateView>, s2: Seq<UpdateView>)
    requires
        stamps_identify(s1),
        s1.to_multiset() == s2.to_multiset(),
    ensures
        merge_all(m, s1) == merge_all(m, s2),
{
    assert forall|x: UpdateView| s1.contains(x) <==> s2.contains(x) by {
        to_multiset_contains(s1, x);
        to_multiset_contains(s2, x);
    }
    lemma_merge_order_independent(m, s1, s2);
}

/// Merging records that the store holds already changes nothing.
pub proof fn lemma_merge_all_held(m: Records, s: Seq<UpdateView>)
    requires
        forall|i: int| 0 <= i < s.len() ==> held(m, (#[trigger] s[i]).key) == Some(s[i].record),
    ensures
        merge_all(m, s) == m,
    decreases s.len(),
{
    if s.len() > 0 {
        let init = s.drop_last();
        assert forall|i: int| 0 <= i < init.len() implies held(m, (#[trigger] init[i]).key)
            == Some(init[i].record) by {
            assert(init[i] == s[i]);
        }
        lemma_merge_all_held(m, init);
        let u = s[s.len() - 1];
        lemma_supersedes_irreflexive(u.record, u.record);
    }
}

/// A store that loads its own snapshot is left as it was.
pub proof fn lemma_snapshot_round_trip(m: Records, s: Seq<UpdateView>)
    requires
        is_snapshot_of(s, m),
    ensures
        merge_all(m, s) == m,
{
    lemma_merge_all_held(m, s);
}

/// Loading a snapshot decides key by key: a key that the snapshot lists
/// holds afterwards what one merge of its entry gives, and a key that it
/// does not list is left alone.
pub proof fn lemma_load_state_by_key(m: Records, s: Seq<UpdateView>, key: Seq<char>)
    requires
        distinct_keys(s),
    ensures
        forall|i: int|
            0 <= i < s.len() && (#[trigger] s[i]).key == key ==> held(merge_all(m, s), key) == held(
                merge_one(m, key, s[i].record),
                key,
            ),
        (forall|i: int| 0 <= i < s.len() ==> (#[trigger] s[i]).key != key) ==> held(
            merge_all(m, s),
            key,
        ) == held(m, key),
    decreases s.len(),
{
    if s.len() > 0 {
        let init = s.drop_last();
        let last = s.len() - 1;
        assert forall|i: int| 0 <= i < init.len() implies init[i] == s[i] by {}
        assert(distinct_keys(init)) by {
            assert forall|i: int, j: int| 0 <= i < j < init.len() implies init[i].key
                != init[j].key by {
                assert(s[i].key != s[j].key);
            }
        }
        lemma_load_state_by_key(m, init, key);
        if s[last].key == key {
            assert forall|i: int| 0 <= i < init.len() implies (#[trigger] init[i]).key != key by {
                assert(s[i].key != s[last].key);
            }
        } else {
            assert forall|i: int| 0 <= i < s.len() && (#[trigger] s[i]).key == key implies held(
                merge_all(m, s),
                key,
            ) == held(merge_one(m, key, s[i].record), key) by {
                assert(init[i].key == key);
            }
            if forall|i: int| 0 <= i < s.len() ==> (#[trigger] s[i]).key != key {
                assert forall|i: int| 0 <= i < init.len() implies (#[trigger] init[i]).key
                    != key by {
                    assert(s[i].key != key);
                }
            }
        }
    }
}

/// A replica that starts empty and loads a snapshot holds exactly the
/// records that the snapshot lists.
pub proof fn lemma_snapshot_restores(m: Records, s: Seq<UpdateView>)
    requires
        is_snapshot_of(s, m),
    ensures
        merge_all(Records::empty(), s) == m,
{
    let loaded = merge_all(Records::empty(), s);
    assert forall|k: Seq<char>| held(loaded, k) == held(m, k) by {
        lemma_load_state_by_key(Records::empty(), s, k);
        if m.contains_key(k) {
            let i = choose|i: int| 0 <= i < s.len() && #[trigger] s[i].key == k;
            assert(held(loaded, k) == held(merge_one(Records::empty(), k, s[i].record), k));
        }
    }
    assert forall|k: Seq<char>|
        #![trigger loaded.dom().contains(k)]
        #![trigger m.dom().contains(k)]
        loaded.dom().contains(k) == m.dom().contains(k) && (m.dom().contains(k) ==> loaded[k]
            == m[k]) by {
        assert(held(loaded, k) == held(m, k));
    }
    assert(loaded =~= m);
}

} // verus!
