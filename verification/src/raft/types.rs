//! Log entries, log ids and results of the replicated log.

use vstd::prelude::*;
use crate::store::model::{Command, CommandView, StoreError, StoreErrorView, StoreResult};
use crate::store::table::Duplicate;
use crate::text::clone_bytes;

verus! {

pub type NodeId = u64;

/// The place of an entry in the log, and the leader that proposed it.
#[derive(Debug, Clone, Copy, PartialEq, Eq, Structural)]
pub struct LogId {
    pub term: u64,
    pub node_id: NodeId,
    pub index: u64,
}

/// A vote: the leader voted for, and whether a quorum granted it.
#[derive(Debug, Clone, Copy, PartialEq, Eq, Structural)]
pub struct Vote {
    pub term: u64,
    pub node_id: NodeId,
    pub committed: bool,
}

/// What an entry of the log carries. A membership change is kept in its encoded form.
#[derive(Debug)]
pub enum EntryPayload {
    Blank,
    Normal(Command),
    Membership(Vec<u8>),
}

pub enum PayloadView {
    Blank,
    Normal(CommandView),
    Membership(Seq<u8>),
}

impl View for EntryPayload {
    type V = PayloadView;

    open spec fn view(&self) -> PayloadView {
        match self {
            EntryPayload::Blank => PayloadView::Blank,
            EntryPayload::Normal(command) => PayloadView::Normal(command@),
            EntryPayload::Membership(members) => PayloadView::Membership(members@),
        }
    }
}

/// An entry of the log.
#[derive(Debug)]
pub struct LogEntry {
    pub log_id: LogId,
    pub payload: EntryPayload,
}

pub struct EntryView {
    pub log_id: LogId,
    pub payload: PayloadView,
}

impl View for LogEntry {
    type V = EntryView;

    open spec fn view(&self) -> EntryView {
        EntryView { log_id: self.log_id, payload: self.payload@ }
    }
}

impl Clone for LogEntry {
    fn clone(&self) -> (r: Self)
        ensures
            r@ == self@,
    {
        let payload = match &self.payload {
            EntryPayload::Blank => EntryPayload::Blank,
            EntryPayload::Normal(command) => EntryPayload::Normal(command.clone()),
            EntryPayload::Membership(members) => EntryPayload::Membership(
                clone_bytes(members.as_slice()),
            ),
        };
        LogEntry { log_id: self.log_id, payload }
    }
}

impl Duplicate for LogEntry {
    fn duplicate(&self) -> (r: LogEntry) {
        self.clone()
    }
}

/// The members of the cluster, in their encoded form, and the entry that set them.
#[derive(Debug)]
pub struct StoredMembership {
    pub log_id: Option<LogId>,
    pub members: Vec<u8>,
}

pub struct MembershipView {
    pub log_id: Option<LogId>,
    pub members: Seq<u8>,
}

impl View for StoredMembership {
    type V = MembershipView;

    open spec fn view(&self) -> MembershipView {
        MembershipView { log_id: self.log_id, members: self.members@ }
    }
}

impl Clone for StoredMembership {
    fn clone(&self) -> (r: Self)
        ensures
            r@ == self@,
    {
        StoredMembership { log_id: self.log_id, members: clone_bytes(self.members.as_slice()) }
    }
}

/// The membership before any was set.
pub open spec fn no_membership() -> MembershipView {
    MembershipView { log_id: None, members: Seq::empty() }
}

impl Default for StoredMembership {
    fn default() -> (r: Self)
        ensures
            r@ == no_membership(),
    {
        let members: Vec<u8> = Vec::new();
        assert(members@ =~= Seq::empty());
        StoredMembership { log_id: None, members }
    }
}

/// What became of an applied entry.
#[derive(Debug)]
pub enum ApplyResult {
    Done,
    NotFound,
    Conflict(String),
    VersionConflict,
}

pub enum ApplyResultView {
    Done,
    NotFound,
    Conflict(Seq<char>),
    VersionConflict,
}

impl View for ApplyResult {
    type V = ApplyResultView;

    open spec fn view(&self) -> ApplyResultView {
        match self {
            ApplyResult::Done => ApplyResultView::Done,
            ApplyResult::NotFound => ApplyResultView::NotFound,
            ApplyResult::Conflict(message) => ApplyResultView::Conflict(message@),
            ApplyResult::VersionConflict => ApplyResultView::VersionConflict,
        }
    }
}

/// What a result tells the writer.
pub open spec fn result_of(outcome: ApplyResultView) -> Result<(), StoreErrorView> {
    match outcome {
        ApplyResultView::Done => Ok(()),
        ApplyResultView::NotFound => Err(StoreErrorView::NotFound),
        ApplyResultView::Conflict(message) => Err(StoreErrorView::Conflict(message)),
        ApplyResultView::VersionConflict => Err(StoreErrorView::VersionConflict),
    }
}

pub fn outcome_to_result(outcome: ApplyResult) -> (r: StoreResult<()>)
    ensures
        match r {
            Ok(_) => result_of(outcome@) == Ok::<(), StoreErrorView>(()),
            Err(error) => result_of(outcome@) == Err::<(), StoreErrorView>(error@),
        },
{
    match outcome {
        ApplyResult::Done => Ok(()),
        ApplyResult::NotFound => Err(StoreError::NotFound),
        ApplyResult::Conflict(message) => Err(StoreError::Conflict(message)),
        ApplyResult::VersionConflict => Err(StoreError::VersionConflict),
    }
}

} // verus!
