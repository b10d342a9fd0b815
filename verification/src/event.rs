//! Change events observed on the source's change feed, and the
//! reader-side tracking of the resume position.

use vstd::prelude::*;
use crate::value::DynamicValue;

verus! {

/// The kind of mutation a change event reports.
#[derive(Clone, Copy, PartialEq, Eq, Structural, Debug)]
pub enum Operation {
    Insert,
    Update,
    Replace,
    Delete,
    Invalidate,
    Other,
}

/// The textual label a change row records for an operation.
pub open spec fn spec_op_label(op: Operation) -> Seq<char> {
    match op {
        Operation::Insert => "insert"@,
        Operation::Update => "update"@,
        Operation::Replace => "replace"@,
        Operation::Delete => "delete"@,
        Operation::Invalidate => "invalidate"@,
        Operation::Other => "other"@,
    }
}

/// The textual label for an operation.
pub fn op_label(op: Operation) -> (r: &'static str)
    ensures
        r@ == spec_op_label(op),
{
    match op {
        Operation::Insert => "insert",
        Operation::Update => "update",
        Operation::Replace => "replace",
        Operation::Delete => "delete",
        Operation::Invalidate => "invalidate",
        Operation::Other => "other",
    }
}

/// One observed mutation at the source: the opaque resume token that
/// orders it, the operation kind, the collection the change occurred in
/// (absent when the feed did not name one), and the post-change
/// document snapshot (absent for deletes and invalidations).
pub struct ChangeEvent {
    pub id: String,
    pub operation: Operation,
    pub collection: Option<String>,
    pub document: Option<Vec<(String, DynamicValue)>>,
}

/// The collection name a change row records: the event's collection,
/// or `unknown` when the feed named none.
pub open spec fn collection_label(e: ChangeEvent) -> Seq<char> {
    match e.collection {
        Some(c) => c@,
        None => "unknown"@,
    }
}

/// The resume position of the reader: the token of the most recently
/// delivered event, so that the caller can reconnect after a transient
/// feed error without loss.
pub struct ResumeTracker {
    last: Option<String>,
}

impl View for ResumeTracker {
    type V = Option<Seq<char>>;

    closed spec fn view(&self) -> Option<Seq<char>> {
        match self.last {
            Some(t) => Some(t@),
            None => None,
        }
    }
}

impl ResumeTracker {
    /// A tracker that has seen no event yet.
    pub fn new() -> (r: ResumeTracker)
        ensures
            r@ is None,
    {
        ResumeTracker { last: None }
    }

    /// Records the token of the event just delivered.
    pub fn record(&mut self, token: &str)
        ensures
            final(self)@ == Some(token@),
    {
        self.last = Some(token.to_owned());
    }

    /// The token of the most recently delivered event, if any.
    pub fn last_token(&self) -> (r: Option<&String>)
        ensures
            match r {
                Some(t) => self@ == Some(t@),
                None => self@ is None,
            },
    {
        self.last.as_ref()
    }
}

} // verus!
