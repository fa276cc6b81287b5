//! The state machine: applying committed entries, and snapshots of the replicated tables.

use vstd::prelude::*;
use crate::store::apply::{apply_command, command_fits, outcome};
use crate::store::backup::finite_store;
use crate::store::laws::{law_replicas_agree, same_replicated};
use crate::store::model::{
    RoleRecord, RoleView, SecretRecord, SecretView, StoreError, StoreErrorView, TokenRecord,
    TokenView, VersionRecord, VersionView,
};
use crate::store::sorting::list_view;
use crate::store::table::{
    dump_table, lemma_ordered_exists, load_table, ordered, pair_views, rows_map,
};
use crate::store::tables::{differ_only_in, names_row, RowRef, RowRefView, StoreView, Tables};
use crate::text::{clone_bytes, decimal, format_u64, push_str};
use super::log::{RaftState, RaftView};
use super::types::{
    no_membership, ApplyResult, ApplyResultView, EntryPayload, EntryView, LogEntry, LogId,
    MembershipView, PayloadView, StoredMembership,
};

verus! {

/// The state after an entry.
pub open spec fn after_entry(state: StoreView, node_id: u64, entry: EntryView) -> StoreView {
    match entry.payload {
        PayloadView::Normal(command) => match outcome(state, node_id, command) {
            Ok(after) => after,
            Err(_) => state,
        },
        _ => state,
    }
}

/// What an entry's writer is told.
pub open spec fn entry_result(state: StoreView, node_id: u64, entry: EntryView) -> ApplyResultView {
    match entry.payload {
        PayloadView::Normal(command) => match outcome(state, node_id, command) {
            Ok(_) => ApplyResultView::Done,
            Err(StoreErrorView::NotFound) => ApplyResultView::NotFound,
            Err(StoreErrorView::Conflict(message)) => ApplyResultView::Conflict(message),
            Err(StoreErrorView::VersionConflict) => ApplyResultView::VersionConflict,
            Err(StoreErrorView::Internal(message)) => ApplyResultView::Conflict(message),
        },
        _ => ApplyResultView::Done,
    }
}

/// The state after entries, one after the other.
pub open spec fn after_entries(state: StoreView, node_id: u64, entries: Seq<EntryView>) -> StoreView
    decreases entries.len(),
{
    if entries.len() == 0 {
        state
    } else {
        after_entry(after_entries(state, node_id, entries.drop_last()), node_id, entries.last())
    }
}

/// What the writers of the entries are told, in the order of the entries.
pub open spec fn entry_results(
    state: StoreView,
    node_id: u64,
    entries: Seq<EntryView>,
) -> Seq<ApplyResultView>
    decreases entries.len(),
{
    if entries.len() == 0 {
        Seq::empty()
    } else {
        entry_results(state, node_id, entries.drop_last()).push(
            entry_result(
                after_entries(state, node_id, entries.drop_last()),
                node_id,
                entries.last(),
            ),
        )
    }
}

/// Whether each entry's command stays within the range of its counters and times.
pub open spec fn entries_fit(state: StoreView, node_id: u64, entries: Seq<EntryView>) -> bool {
    forall|i: int|
        0 <= i < entries.len() ==> match (#[trigger] entries[i]).payload {
            PayloadView::Normal(command) => command_fits(
                after_entries(state, node_id, entries.take(i)),
                command,
            ),
            _ => true,
        }
}

/// The membership after entries: that of the last entry that sets one.
pub open spec fn membership_after(
    membership: Option<MembershipView>,
    entries: Seq<EntryView>,
) -> Option<MembershipView>
    decreases entries.len(),
{
    if entries.len() == 0 {
        membership
    } else {
        match entries.last().payload {
            PayloadView::Membership(members) => Some(
                MembershipView { log_id: Some(entries.last().log_id), members },
            ),
            _ => membership_after(membership, entries.drop_last()),
        }
    }
}

/// The marks of a node after applying entries.
pub open spec fn raft_after(raft: RaftView, entries: Seq<EntryView>) -> RaftView {
    if entries.len() == 0 {
        raft
    } else {
        RaftView {
            last_applied: Some(entries.last().log_id),
            membership: membership_after(raft.membership, entries),
            ..raft
        }
    }
}

proof fn lemma_differ_compose(
    a: StoreView,
    b: StoreView,
    c: StoreView,
    first: Seq<RowRef>,
    second: Seq<RowRef>,
)
    requires
        differ_only_in(a, b, first),
        differ_only_in(b, c, second),
    ensures
        differ_only_in(a, c, first + second),
{
    let both = first + second;
    assert forall|row: RowRefView| #[trigger] names_row(both, row) == (names_row(first, row)
        || names_row(second, row)) by {
        if names_row(first, row) {
            let i = choose|i: int| 0 <= i < first.len() && (#[trigger] first[i])@ == row;
            assert(both[i]@ == row);
        }
        if names_row(second, row) {
            let i = choose|i: int| 0 <= i < second.len() && (#[trigger] second[i])@ == row;
            assert(both[first.len() + i]@ == row);
        }
        if names_row(both, row) {
            let i = choose|i: int| 0 <= i < both.len() && (#[trigger] both[i])@ == row;
            if i < first.len() {
                assert(first[i]@ == row);
            } else {
                assert(second[i - first.len()]@ == row);
            }
        }
    }
}

/// Applies committed entries in order: tells each entry's result, and the rows that changed.
pub fn apply_entries(
    tables: &mut Tables,
    raft: &mut RaftState,
    node_id: u64,
    entries: &Vec<LogEntry>,
) -> (r: (Vec<ApplyResult>, Vec<RowRef>))
    requires
        entries_fit(old(tables)@, node_id, list_view(entries@)),
    ensures
        final(tables)@ == after_entries(old(tables)@, node_id, list_view(entries@)),
        final(raft)@ == raft_after(old(raft)@, list_view(entries@)),
        list_view(r.0@) == entry_results(old(tables)@, node_id, list_view(entries@)),
        differ_only_in(old(tables)@, final(tables)@, r.1@),
{
    let ghost before = tables@;
    let ghost marks = raft@;
    let ghost all = list_view(entries@);
    let mut results: Vec<ApplyResult> = Vec::new();
    let mut rows: Vec<RowRef> = Vec::new();
    let mut i: usize = 0;
    assert(all.take(0) =~= Seq::empty());
    assert(list_view(results@) =~= Seq::empty());
    while i < entries.len()
        invariant
            i <= entries@.len() == all.len(),
            all == list_view(entries@),
            entries_fit(before, node_id, all),
            tables@ == after_entries(before, node_id, all.take(i as int)),
            raft@ == raft_after(marks, all.take(i as int)),
            list_view(results@) == entry_results(before, node_id, all.take(i as int)),
            differ_only_in(before, tables@, rows@),
        decreases entries@.len() - i,
    {
        let ghost done = results@;
        let ghost here = tables@;
        let ghost seen = rows@;
        proof {
            assert(all.take(i as int + 1).drop_last() =~= all.take(i as int));
            assert(all[i as int] == entries@[i as int]@);
            assert(all.take(i as int + 1).last() == all[i as int]);
        }
        let entry = &entries[i];
        raft.last_applied = Some(entry.log_id);
        match &entry.payload {
            EntryPayload::Blank => results.push(ApplyResult::Done),
            EntryPayload::Normal(command) => {
                match apply_command(tables, node_id, command) {
                    Ok(changed) => {
                        let mut changed = changed;
                        let ghost more = changed@;
                        rows.append(&mut changed);
                        proof {
                            lemma_differ_compose(before, here, tables@, seen, more);
                        }
                        results.push(ApplyResult::Done);
                    },
                    Err(StoreError::NotFound) => results.push(ApplyResult::NotFound),
                    Err(StoreError::Conflict(message)) => results.push(
                        ApplyResult::Conflict(message),
                    ),
                    Err(StoreError::VersionConflict) => results.push(ApplyResult::VersionConflict),
                    // No command is refused with an internal error.
                    Err(StoreError::Internal(message)) => results.push(
                        ApplyResult::Conflict(message),
                    ),
                }
            },
            EntryPayload::Membership(members) => {
                raft.membership = Some(
                    StoredMembership {
                        log_id: Some(entry.log_id),
                        members: clone_bytes(members.as_slice()),
                    },
                );
                results.push(ApplyResult::Done);
            },
        }
        assert(list_view(results@) =~= list_view(done).push(
            entry_result(here, node_id, all[i as int]),
        ));
        i = i + 1;
    }
    assert(all.take(i as int) =~= all);
    (results, rows)
}

/// A copy of the replicated tables, with the entry they stand at and the members then.
#[derive(Debug)]
pub struct SnapshotData {
    pub secrets: Vec<(String, SecretRecord)>,
    pub versions: Vec<(String, VersionRecord)>,
    pub roles: Vec<(String, RoleRecord)>,
    pub tokens: Vec<(Vec<u8>, TokenRecord)>,
    pub tokens_by_name: Vec<(String, Vec<u8>)>,
    pub last_applied: Option<LogId>,
    pub membership: StoredMembership,
}

pub struct SnapshotView {
    pub secrets: Seq<(Seq<char>, SecretView)>,
    pub versions: Seq<(Seq<char>, VersionView)>,
    pub roles: Seq<(Seq<char>, RoleView)>,
    pub tokens: Seq<(Seq<u8>, TokenView)>,
    pub tokens_by_name: Seq<(Seq<char>, Seq<u8>)>,
    pub last_applied: Option<LogId>,
    pub membership: MembershipView,
}

impl View for SnapshotData {
    type V = SnapshotView;

    open spec fn view(&self) -> SnapshotView {
        SnapshotView {
            secrets: pair_views(self.secrets@),
            versions: pair_views(self.versions@),
            roles: pair_views(self.roles@),
            tokens: pair_views(self.tokens@),
            tokens_by_name: pair_views(self.tokens_by_name@),
            last_applied: self.last_applied,
            membership: self.membership@,
        }
    }
}

/// What identifies a snapshot.
#[derive(Debug)]
pub struct SnapshotMeta {
    pub last_log_id: Option<LogId>,
    pub last_membership: StoredMembership,
    pub snapshot_id: String,
}

pub struct SnapshotMetaView {
    pub last_log_id: Option<LogId>,
    pub last_membership: MembershipView,
    pub snapshot_id: Seq<char>,
}

impl View for SnapshotMeta {
    type V = SnapshotMetaView;

    open spec fn view(&self) -> SnapshotMetaView {
        SnapshotMetaView {
            last_log_id: self.last_log_id,
            last_membership: self.last_membership@,
            snapshot_id: self.snapshot_id@,
        }
    }
}

/// The members recorded, or the empty membership.
pub open spec fn members_of(raft: RaftView) -> MembershipView {
    match raft.membership {
        Some(membership) => membership,
        None => no_membership(),
    }
}

/// The name of a snapshot: term, leader and index of its last entry.
pub open spec fn snapshot_name(last_applied: Option<LogId>) -> Seq<char> {
    match last_applied {
        Some(id) => "T"@ + decimal(id.term as int) + "-N"@ + decimal(id.node_id as int) + "-"@
            + decimal(id.index as int),
        None => "empty"@,
    }
}

/// The description of a snapshot taken now.
pub open spec fn meta_of(raft: RaftView) -> SnapshotMetaView {
    SnapshotMetaView {
        last_log_id: raft.last_applied,
        last_membership: members_of(raft),
        snapshot_id: snapshot_name(raft.last_applied),
    }
}

/// The snapshot of a state.
pub open spec fn snapshot_of(state: StoreView, raft: RaftView) -> SnapshotView {
    SnapshotView {
        secrets: ordered::<String, SecretView>(state.secrets),
        versions: ordered::<String, VersionView>(state.versions),
        roles: ordered::<String, RoleView>(state.roles),
        tokens: ordered::<Vec<u8>, TokenView>(state.tokens),
        tokens_by_name: ordered::<String, Seq<u8>>(state.tokens_by_name),
        last_applied: raft.last_applied,
        membership: members_of(raft),
    }
}

/// A state after installing a snapshot: its five tables are replaced, the rest stays.
pub open spec fn installed(state: StoreView, data: SnapshotView) -> StoreView {
    StoreView {
        secrets: rows_map(data.secrets),
        versions: rows_map(data.versions),
        roles: rows_map(data.roles),
        tokens: rows_map(data.tokens),
        tokens_by_name: rows_map(data.tokens_by_name),
        ..state
    }
}

/// The marks of a node after installing a snapshot: it stands at the snapshot's last entry, and
/// the log up to there is purged.
pub open spec fn raft_installed(raft: RaftView, meta: SnapshotMetaView) -> RaftView {
    RaftView {
        last_applied: meta.last_log_id,
        membership: Some(meta.last_membership),
        last_purged: match meta.last_log_id {
            Some(last) => Some(last),
            None => raft.last_purged,
        },
        log: match meta.last_log_id {
            Some(last) => raft.log.remove_keys(Set::new(|k: u64| k <= last.index)),
            None => raft.log,
        },
        ..raft
    }
}

fn snapshot_id(last_applied: Option<LogId>) -> (r: String)
    ensures
        r@ == snapshot_name(last_applied),
{
    match last_applied {
        Some(id) => {
            let mut out = String::new();
            push_str(&mut out, "T");
            push_str(&mut out, format_u64(id.term).as_str());
            push_str(&mut out, "-N");
            push_str(&mut out, format_u64(id.node_id).as_str());
            push_str(&mut out, "-");
            push_str(&mut out, format_u64(id.index).as_str());
            assert(out@ =~= snapshot_name(last_applied));
            out
        },
        None => "empty".to_owned(),
    }
}

/// How far entries are applied, and the members.
pub fn applied_state(raft: &RaftState) -> (r: (Option<LogId>, StoredMembership))
    ensures
        r.0 == raft@.last_applied,
        r.1@ == members_of(raft@),
{
    (raft.last_applied, raft.members())
}

/// Takes a snapshot.
pub fn build_snapshot(tables: &Tables, raft: &RaftState) -> (r: (SnapshotData, SnapshotMeta))
    ensures
        r.0@ == snapshot_of(tables@, raft@),
        r.1@ == meta_of(raft@),
{
    let data = SnapshotData {
        secrets: dump_table(&tables.secrets),
        versions: dump_table(&tables.versions),
        roles: dump_table(&tables.roles),
        tokens: dump_table(&tables.tokens),
        tokens_by_name: dump_table(&tables.tokens_by_name),
        last_applied: raft.last_applied,
        membership: raft.members(),
    };
    let meta = SnapshotMeta {
        last_log_id: raft.last_applied,
        last_membership: raft.members(),
        snapshot_id: snapshot_id(raft.last_applied),
    };
    (data, meta)
}

/// Keeps an encoded snapshot as the current one.
pub fn keep_snapshot(raft: &mut RaftState, encoded: &Vec<u8>)
    ensures
        final(raft)@ == (RaftView { snapshot: Some(encoded@), ..old(raft)@ }),
{
    raft.snapshot = Some(clone_bytes(encoded.as_slice()));
}

/// The current encoded snapshot, described by where the node stands now.
pub fn get_current_snapshot(raft: &RaftState) -> (r: Option<(SnapshotMeta, Vec<u8>)>)
    ensures
        match r {
            Some(snapshot) => raft@.snapshot == Some(snapshot.1@) && snapshot.0@ == meta_of(raft@),
            None => raft@.snapshot is None,
        },
{
    match &raft.snapshot {
        Some(encoded) => {
            let meta = SnapshotMeta {
                last_log_id: raft.last_applied,
                last_membership: raft.members(),
                snapshot_id: snapshot_id(raft.last_applied),
            };
            Some((meta, clone_bytes(encoded.as_slice())))
        },
        None => None,
    }
}

/// Replaces the replicated tables by a snapshot and drops the log that it covers; names the
/// indexes removed.
pub fn install_snapshot(
    tables: &mut Tables,
    raft: &mut RaftState,
    meta: &SnapshotMeta,
    data: &SnapshotData,
) -> (r: Vec<u64>)
    ensures
        final(tables)@ == installed(old(tables)@, data@),
        final(raft)@ == raft_installed(old(raft)@, meta@),
        forall|k: u64|
            r@.contains(k) <==> #[trigger] old(raft)@.log.contains_key(k)
                && meta.last_log_id is Some && k <= meta.last_log_id->0.index,
{
    tables.secrets = load_table(&data.secrets);
    tables.versions = load_table(&data.versions);
    tables.roles = load_table(&data.roles);
    tables.tokens_by_name = load_table(&data.tokens_by_name);
    tables.tokens = load_table(&data.tokens);
    raft.last_applied = meta.last_log_id;
    raft.membership = Some(meta.last_membership.clone());
    match meta.last_log_id {
        Some(last) => raft.purge(last),
        None => Vec::new(),
    }
}

/// A follower that installs a leader's snapshot has the leader's secrets, versions, roles and
/// tokens, stands where the leader stood, and keeps what is its own.
pub proof fn law_snapshot_round_trip(
    leader: StoreView,
    leader_marks: RaftView,
    follower: StoreView,
    follower_marks: RaftView,
)
    requires
        finite_store(leader),
    ensures
        ({
            let after = installed(follower, snapshot_of(leader, leader_marks));
            let marks = raft_installed(follower_marks, meta_of(leader_marks));
            &&& after == (StoreView {
                audit: follower.audit,
                lockouts: follower.lockouts,
                kms_rewrap: follower.kms_rewrap,
                ..leader
            })
            &&& marks.last_applied == leader_marks.last_applied
            &&& leader_marks.last_applied is Some ==> marks.last_purged
                == leader_marks.last_applied
            &&& forall|k: u64| #[trigger]
                marks.log.contains_key(k) && leader_marks.last_applied is Some ==> k
                    > leader_marks.last_applied->0.index
        }),
{
    lemma_ordered_exists::<String, SecretView>(leader.secrets);
    lemma_ordered_exists::<String, VersionView>(leader.versions);
    lemma_ordered_exists::<String, RoleView>(leader.roles);
    lemma_ordered_exists::<Vec<u8>, TokenView>(leader.tokens);
    lemma_ordered_exists::<String, Seq<u8>>(leader.tokens_by_name);
}

/// Replicas that apply the same entries from the same replicated state stay the same and tell
/// their writers the same.
pub proof fn law_replicas_stay_equal(
    a: StoreView,
    b: StoreView,
    node_a: u64,
    node_b: u64,
    entries: Seq<EntryView>,
)
    requires
        same_replicated(a, b),
        forall|i: int|
            0 <= i < entries.len() ==> match (#[trigger] entries[i]).payload {
                PayloadView::Normal(command) => !(command is AppendAudit)
                    && !(command is RecordAuthFailure),
                _ => true,
            },
    ensures
        same_replicated(after_entries(a, node_a, entries), after_entries(b, node_b, entries)),
        entry_results(a, node_a, entries) == entry_results(b, node_b, entries),
    decreases entries.len(),
{
    if entries.len() > 0 {
        let front = entries.drop_last();
        assert forall|i: int| 0 <= i < front.len() implies match (#[trigger] front[i]).payload {
            PayloadView::Normal(command) => !(command is AppendAudit)
                && !(command is RecordAuthFailure),
            _ => true,
        } by {
            assert(front[i] == entries[i]);
        }
        law_replicas_stay_equal(a, b, node_a, node_b, front);
        assert(entries[entries.len() - 1] == entries.last());
        if let PayloadView::Normal(command) = entries.last().payload {
            law_replicas_agree(
                after_entries(a, node_a, front),
                after_entries(b, node_b, front),
                node_a,
                node_b,
                command,
            );
        }
    }
}

} // verus!
