//! Records, update messages and the order that decides between two records.

use vstd::prelude::*;
use crate::json::{json_is_null, value_is_null};
use crate::order::{
    lemma_lex_asymmetric, lemma_lex_irreflexive, lemma_lex_total, lemma_lex_transitive, lex_less,
    str_greater,
};

verus! {

/// The latest known write for one key.
#[derive(Debug)]
pub struct LwwRecord {
    /// The payload; JSON null marks a deletion.
    pub value: serde_json::Value,
    /// Wall-clock time of the write, in milliseconds since the epoch.
    pub timestamp: u64,
    /// The replica that made the write.
    pub node_id: String,
}

/// A record as a mathematical value.
pub ghost struct RecordView {
    pub value: serde_json::Value,
    pub timestamp: nat,
    pub author: Seq<char>,
}

/// One key's new record, as replicas exchange it.
#[derive(Debug)]
pub struct UpdateMessage {
    pub key: String,
    pub record: LwwRecord,
}

/// An update message as a mathematical value.
pub ghost struct UpdateView {
    pub key: Seq<char>,
    pub record: RecordView,
}

/// `incoming` is strictly later than `local`: by timestamp, and between equal
/// timestamps by author.
pub open spec fn supersedes(incoming: RecordView, local: RecordView) -> bool {
    incoming.timestamp > local.timestamp || (incoming.timestamp == local.timestamp && lex_less(
        local.author,
        incoming.author,
    ))
}

/// Two records carry the same timestamp and author.
pub open spec fn same_stamp(a: RecordView, b: RecordView) -> bool {
    a.timestamp == b.timestamp && a.author == b.author
}

impl RecordView {
    /// The record marks its key as deleted (or was set to null, which is the
    /// same record).
    pub open spec fn is_tombstone(self) -> bool {
        json_is_null(self.value)
    }
}

impl View for LwwRecord {
    type V = RecordView;

    open spec fn view(&self) -> RecordView {
        RecordView { value: self.value, timestamp: self.timestamp as nat, author: self.node_id@ }
    }
}

impl View for UpdateMessage {
    type V = UpdateView;

    open spec fn view(&self) -> UpdateView {
        UpdateView { key: self.key@, record: self.record@ }
    }
}

impl Clone for LwwRecord {
    fn clone(&self) -> (r: Self)
        ensures
            r@ == self@,
    {
        LwwRecord {
            value: self.value.clone(),
            timestamp: self.timestamp,
            node_id: self.node_id.clone(),
        }
    }
}

impl Clone for UpdateMessage {
    fn clone(&self) -> (r: Self)
        ensures
            r@ == self@,
    {
        UpdateMessage { key: self.key.clone(), record: self.record.clone() }
    }
}

/// No record is later than itself, nor than a record with its own timestamp
/// and author.
pub proof fn lemma_supersedes_irreflexive(a: RecordView, b: RecordView)
    requires
        same_stamp(a, b),
    ensures
        !supersedes(a, b),
{
    lemma_lex_irreflexive(a.author);
}

/// Of two records at most one is later than the other.
pub proof fn lemma_supersedes_asymmetric(a: RecordView, b: RecordView)
    requires
        supersedes(a, b),
    ensures
        !supersedes(b, a),
{
    if a.timestamp == b.timestamp {
        lemma_lex_asymmetric(b.author, a.author);
    }
}

/// A record later than a record later than a third is later than the third.
pub proof fn lemma_supersedes_transitive(a: RecordView, b: RecordView, c: RecordView)
    requires
        supersedes(a, b),
        supersedes(b, c),
    ensures
        supersedes(a, c),
{
    if a.timestamp == b.timestamp && b.timestamp == c.timestamp {
        lemma_lex_transitive(c.author, b.author, a.author);
    }
}

/// Two records with different timestamps or authors are ordered: one of them
/// is later than the other.
pub proof fn lemma_supersedes_total(a: RecordView, b: RecordView)
    ensures
        same_stamp(a, b) || supersedes(a, b) || supersedes(b, a),
{
    lemma_lex_total(a.author, b.author);
}

impl LwwRecord {
    /// Whether this record wins over `local` when it arrives at a replica
    /// that holds `local` for the same key.
    pub fn supersedes(&self, local: &LwwRecord) -> (r: bool)
        ensures
            r == supersedes(self@, local@),
    {
        if self.timestamp > local.timestamp {
            true
        } else if self.timestamp == local.timestamp {
            str_greater(self.node_id.as_str(), local.node_id.as_str())
        } else {
            false
        }
    }

    /// Whether the payload is null: the key was deleted, or set to null.
    pub fn is_tombstone(&self) -> (r: bool)
        ensures
            r == self@.is_tombstone(),
    {
        value_is_null(&self.value)
    }
}

} // verus!
