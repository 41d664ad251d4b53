//! The store: one replica's records, with local writes and merges.

use vstd::prelude::*;
use vstd::hash_map::StringHashMap;
use crate::json::null_value;
use crate::merge::{is_snapshot_of, merge_all, merge_changes, merge_one, resolve, views, Records};
use crate::record::{LwwRecord, RecordView, UpdateMessage, UpdateView};

verus! {

/// One replica of the key-value store.
pub struct CrdtStore {
    store: StringHashMap<LwwRecord>,
    /// Every key of `store`, once, in the order of first writing.
    keys: Vec<String>,
    node_id: String,
}

impl View for CrdtStore {
    type V = Records;

    closed spec fn view(&self) -> Records {
        Map::new(|k: Seq<char>| self.store@.contains_key(k), |k: Seq<char>| self.store@[k]@)
    }
}

impl CrdtStore {
    /// The identifier this replica writes under.
    pub closed spec fn replica_id(&self) -> Seq<char> {
        self.node_id@
    }

    /// The key list names each key of the map exactly once.
    pub closed spec fn wf(&self) -> bool {
        &&& forall|i: int, j: int|
            0 <= i < j < self.keys@.len() ==> self.keys@[i]@ != self.keys@[j]@
        &&& forall|i: int|
            0 <= i < self.keys@.len() ==> self.store@.contains_key(#[trigger] self.keys@[i]@)
        &&& forall|k: Seq<char>| #[trigger]
            self.store@.contains_key(k) ==> exists|i: int|
                0 <= i < self.keys@.len() && #[trigger] self.keys@[i]@ == k
    }

    /// An empty store for the replica `node_id`.
    pub fn new(node_id: String) -> (s: CrdtStore)
        ensures
            s.wf(),
            s@ == Records::empty(),
            s.replica_id() == node_id@,
    {
        let s = CrdtStore { store: StringHashMap::new(), keys: Vec::new(), node_id };
        assert(s@ =~= Records::empty());
        s
    }

    /// Puts `record` at `key`, whatever the key held.
    fn install(&mut self, key: String, record: LwwRecord)
        requires
            old(self).wf(),
        ensures
            final(self).wf(),
            final(self)@ == old(self)@.insert(key@, record@),
            final(self).replica_id() == old(self).replica_id(),
    {
        if !self.store.contains_key(key.as_str()) {
            self.keys.push(key.clone());
        }
        self.store.insert(key, record);
        proof {
            assert(self@ =~= old(self)@.insert(key@, record@));
            assert forall|k: Seq<char>| #[trigger] self.store@.contains_key(k) implies exists|i: int|
                0 <= i < self.keys@.len() && #[trigger] self.keys@[i]@ == k by {
                if old(self).store@.contains_key(k) {
                    let i = choose|i: int|
                        0 <= i < old(self).keys@.len() && #[trigger] old(self).keys@[i]@ == k;
                    assert(self.keys@[i]@ == k);
                } else {
                    assert(self.keys@[self.keys@.len() - 1]@ == k);
                }
            }
        }
    }

    /// Writes `value` at `key` as this replica, at the time `timestamp`, and
    /// returns the update to send to the other replicas. A local write
    /// replaces whatever the key held.
    pub fn set(&mut self, key: String, value: serde_json::Value, timestamp: u64) -> (update:
        UpdateMessage)
        requires
            old(self).wf(),
        ensures
            final(self).wf(),
            final(self).replica_id() == old(self).replica_id(),
            update@ == (UpdateView {
                key: key@,
                record: RecordView {
                    value: value,
                    timestamp: timestamp as nat,
                    author: old(self).replica_id(),
                },
            }),
            final(self)@ == old(self)@.insert(key@, update@.record),
    {
        let record = LwwRecord { value, timestamp, node_id: self.node_id.clone() };
        self.install(key.clone(), record.clone());
        UpdateMessage { key, record }
    }

    /// Deletes `key` as this replica, at the time `timestamp`: the key then
    /// holds a record whose value is null. Returns the update to send.
    pub fn delete(&mut self, key: String, timestamp: u64) -> (update: UpdateMessage)
        requires
            old(self).wf(),
        ensures
            final(self).wf(),
            final(self).replica_id() == old(self).replica_id(),
            update@.key == key@,
            update@.record.is_tombstone(),
            update@.record.timestamp == timestamp,
            update@.record.author == old(self).replica_id(),
            final(self)@ == old(self)@.insert(key@, update@.record),
    {
        self.set(key, null_value(), timestamp)
    }

    /// The value that `key` holds, or `None` where the key was never written.
    pub fn get(&self, key: &str) -> (value: Option<&serde_json::Value>)
        ensures
            match value {
                Some(v) => self@.contains_key(key@) && *v == self@[key@].value,
                None => !self@.contains_key(key@),
            },
    {
        match self.store.get(key) {
            Some(record) => Some(&record.value),
            None => None,
        }
    }

    /// All records of the store, one entry for each key.
    pub fn get_state(&self) -> (snapshot: Vec<UpdateMessage>)
        requires
            self.wf(),
        ensures
            is_snapshot_of(views(snapshot@), self@),
    {
        let mut out: Vec<UpdateMessage> = Vec::new();
        let n: usize = self.keys.len();
        let mut i: usize = 0;
        while i < n
            invariant
                self.wf(),
                n == self.keys@.len(),
                i <= n,
                out@.len() == i,
                forall|j: int|
                    0 <= j < i ==> (#[trigger] out@[j])@.key == self.keys@[j]@ && out@[j]@.record
                        == self@[self.keys@[j]@],
            decreases n - i,
        {
            let key = &self.keys[i];
            if let Some(record) = self.store.get(key.as_str()) {
                out.push(UpdateMessage { key: key.clone(), record: record.clone() });
            }
            i += 1;
        }
        proof {
            let s = views(out@);
            assert forall|k: Seq<char>| #[trigger] self@.contains_key(k) implies exists|j: int|
                0 <= j < s.len() && #[trigger] s[j].key == k by {
                let j = choose|j: int| 0 <= j < self.keys@.len() && #[trigger] self.keys@[j]@ == k;
                assert(s[j].key == k);
            }
        }
        out
    }

    /// Merges the record of one key: adopts it where the key holds none or an
    /// earlier one, and says whether it did.
    pub fn merge_record(&mut self, key: &str, record: &LwwRecord) -> (changed: bool)
        requires
            old(self).wf(),
        ensures
            final(self).wf(),
            final(self).replica_id() == old(self).replica_id(),
            changed == merge_changes(old(self)@, key@, record@),
            final(self)@ == merge_one(old(self)@, key@, record@),
    {
        let changed = resolve(self.store.get(key), record);
        if changed {
            self.install(key.to_owned(), record.clone());
        }
        changed
    }

    /// Merges an update from another replica. Returns whether the store
    /// changed.
    pub fn merge(&mut self, update: UpdateMessage) -> (changed: bool)
        requires
            old(self).wf(),
        ensures
            final(self).wf(),
            final(self).replica_id() == old(self).replica_id(),
            changed == merge_changes(old(self)@, update@.key, update@.record),
            final(self)@ == merge_one(old(self)@, update@.key, update@.record),
    {
        self.merge_record(update.key.as_str(), &update.record)
    }

    /// Merges a log of updates, first to last.
    pub fn load_bulk(&mut self, updates: Vec<UpdateMessage>)
        requires
            old(self).wf(),
        ensures
            final(self).wf(),
            final(self).replica_id() == old(self).replica_id(),
            final(self)@ == merge_all(old(self)@, views(updates@)),
    {
        let n: usize = updates.len();
        let mut i: usize = 0;
        while i < n
            invariant
                self.wf(),
                self.replica_id() == old(self).replica_id(),
                n == updates@.len(),
                i <= n,
                self@ == merge_all(old(self)@, views(updates@).take(i as int)),
            decreases n - i,
        {
            let msg = &updates[i];
            proof {
                let next = views(updates@).take(i + 1);
                assert(next.drop_last() =~= views(updates@).take(i as int));
                assert(next.last() == msg@);
            }
            self.merge_record(msg.key.as_str(), &msg.record);
            i += 1;
        }
        proof {
            assert(views(updates@).take(n as int) =~= views(updates@));
        }
    }

    /// Merges a snapshot into the store, entry by entry: a key keeps its
    /// record unless the snapshot's is later.
    pub fn load_state(&mut self, state: Vec<UpdateMessage>)
        requires
            old(self).wf(),
        ensures
            final(self).wf(),
            final(self).replica_id() == old(self).replica_id(),
            final(self)@ == merge_all(old(self)@, views(state@)),
    {
        self.load_bulk(state)
    }
}

} // verus!
