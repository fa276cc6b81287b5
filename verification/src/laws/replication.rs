//! What the log and the state machine of a node do.

use vstd::prelude::*;
use crate::raft::log::{appended, log_state_of, normalized, RaftView};
use crate::raft::machine::{
    after_entries, after_entry, entry_result, entry_results, membership_after, meta_of, raft_after,
    raft_installed, snapshot_name, snapshot_of, SnapshotMetaView,
};
use crate::raft::node::{forward_answer, is_lowest, write_step, ForwardReply, WriteReply, WriteStep};
use crate::raft::types::{
    result_of, ApplyResultView, EntryView, LogId, MembershipView, PayloadView,
};
use crate::store::apply::outcome;
use crate::store::model::StoreErrorView;
use crate::store::table::{lemma_ordered_exists, lemma_ordered_has, ordered};
use crate::store::tables::StoreView;
use crate::text::decimal;

verus! {

/// Appended entries are found under their indexes, the last of several under one index, and every
/// other entry is as it was.
pub proof fn law_appended_entries(
    log: Map<u64, EntryView>,
    entries: Seq<EntryView>,
    index: u64,
    i: int,
)
    ensures
        ({
            let after = appended(log, entries);
            &&& 0 <= i < entries.len() && entries[i].log_id.index == index && (forall|j: int|
                i < j < entries.len() ==> (#[trigger] entries[j]).log_id.index != index)
                ==> after.contains_key(index) && after[index] == entries[i]
            &&& (forall|j: int|
                0 <= j < entries.len() ==> (#[trigger] entries[j]).log_id.index != index)
                ==> after.contains_key(index) == log.contains_key(index) && (log.contains_key(index)
                ==> after[index] == log[index])
        }),
    decreases entries.len(),
{
    if entries.len() > 0 {
        let front = entries.drop_last();
        let last = entries.len() - 1;
        law_appended_entries(log, front, index, i);
        assert(entries[last] == entries.last());
        assert(forall|j: int| 0 <= j < front.len() ==> front[j] == #[trigger] entries[j]);
        if 0 <= i < last && entries[i].log_id.index == index && (forall|j: int|
            i < j < entries.len() ==> (#[trigger] entries[j]).log_id.index != index) {
            assert(entries[last].log_id.index != index);
            assert forall|j: int| i < j < front.len() implies (#[trigger] front[j]).log_id.index
                != index by {
                assert(front[j] == entries[j]);
            }
        }
        if forall|j: int|
            0 <= j < entries.len() ==> (#[trigger] entries[j]).log_id.index != index {
            assert(entries[last].log_id.index != index);
            assert forall|j: int| 0 <= j < front.len() implies (#[trigger] front[j]).log_id.index
                != index by {
                assert(front[j] == entries[j]);
            }
        }
    }
}

/// The last id of a log is that of its entry with the greatest index; of an empty log it is what
/// was purged. A log that starts behind what was purged counts as purged up to what was applied.
pub proof fn law_log_state(raft: RaftView, index: u64)
    requires
        raft.log.dom().finite(),
        raft.last_purged is Some ==> raft.last_purged->0.index < u64::MAX,
    ensures
        ({
            let found = log_state_of(raft);
            let empty = forall|k: u64| !#[trigger] raft.log.contains_key(k);
            let gap = exists|first: u64| #[trigger]
                is_first(raft.log, first) && (raft.last_purged is None ==> first > 0) && (
                raft.last_purged is Some ==> first > raft.last_purged->0.index + 1);
            &&& empty ==> found.last_log_id == raft.last_purged && found.last_purged_log_id
                == raft.last_purged
            &&& raft.log.contains_key(index) && (forall|k: u64| #[trigger]
                raft.log.contains_key(k) ==> k <= index) ==> found.last_log_id == Some(
                raft.log[index].log_id,
            )
            &&& !empty ==> found.last_purged_log_id == if gap && raft.last_applied is Some {
                raft.last_applied
            } else {
                raft.last_purged
            }
        }),
{
    let rows = ordered::<u64, EntryView>(raft.log);
    lemma_ordered_exists::<u64, EntryView>(raft.log);
    if rows.len() == 0 {
        assert forall|k: u64| !#[trigger] raft.log.contains_key(k) by {
            lemma_ordered_has::<u64, EntryView>(raft.log, k);
        }
    } else {
        let last = rows.len() - 1;
        lemma_ordered_has::<u64, EntryView>(raft.log, rows[last].0);
        lemma_ordered_has::<u64, EntryView>(raft.log, rows[0].0);
        assert(raft.log.contains_key(rows[last].0));
        assert(raft.log.contains_key(rows[0].0));
        assert forall|k: u64| #[trigger] raft.log.contains_key(k) implies rows[0].0 <= k
            <= rows[last].0 by {
            lemma_ordered_has::<u64, EntryView>(raft.log, k);
            let m = choose|m: int| 0 <= m < rows.len() && (#[trigger] rows[m]).0 == k;
            if m > 0 {
                assert(<u64 as crate::order::Key>::precedes(rows[0].0, rows[m].0));
            }
            if m < last {
                assert(<u64 as crate::order::Key>::precedes(rows[m].0, rows[last].0));
            }
        }
        assert(is_first(raft.log, rows[0].0));
        assert forall|first: u64| #[trigger] is_first(raft.log, first) implies first
            == rows[0].0 by {
            assert(raft.log.contains_key(first));
        }
        if raft.log.contains_key(index) && (forall|k: u64| #[trigger]
            raft.log.contains_key(k) ==> k <= index) {
            assert(index == rows[last].0);
        }
    }
}

/// Whether an index is the first of a log.
pub open spec fn is_first(log: Map<u64, EntryView>, index: u64) -> bool {
    log.contains_key(index) && forall|k: u64| #[trigger] log.contains_key(k) ==> index <= k
}

/// Repairing a log keeps an entry, as it is, exactly where it lies behind what was applied, or else
/// purged, and no entry is missing in between. It never touches the vote, what was applied, the
/// membership or the snapshot.
pub proof fn law_repaired_log(raft: RaftView, index: u64)
    ensures
        ({
            let after = normalized(raft);
            let behind = |k: int|
                if raft.last_applied is Some {
                    k > raft.last_applied->0.index
                } else {
                    raft.last_purged is Some ==> k > raft.last_purged->0.index
                };
            &&& after.log.contains_key(index) <==> behind(index as int) && forall|k: u64|
                behind(k as int) && k <= index ==> #[trigger] raft.log.contains_key(k)
            &&& after.log.contains_key(index) ==> after.log[index] == raft.log[index]
            &&& after.vote == raft.vote
            &&& after.last_applied == raft.last_applied
            &&& after.membership == raft.membership
            &&& after.snapshot == raft.snapshot
            &&& raft.last_applied is None ==> after.last_purged == raft.last_purged
            &&& raft.last_applied is Some && (raft.last_purged is None
                || raft.last_purged->0.index < raft.last_applied->0.index) ==> after.last_purged
                == raft.last_applied
            &&& raft.last_applied is Some && raft.last_purged is Some
                && raft.last_purged->0.index >= raft.last_applied->0.index ==> after.last_purged
                == raft.last_purged
        }),
{
    let after = normalized(raft);
    let start = crate::raft::log::start_of(raft);
    let behind = |k: int|
        if raft.last_applied is Some {
            k > raft.last_applied->0.index
        } else {
            raft.last_purged is Some ==> k > raft.last_purged->0.index
        };
    assert(forall|k: int| k >= 0 ==> (#[trigger] behind(k) <==> k >= start));
    if behind(index as int) && forall|k: u64|
        behind(k as int) && k <= index ==> #[trigger] raft.log.contains_key(k) {
        assert forall|j: u64| start <= j <= index implies #[trigger] raft.log.contains_key(j) by {
            assert(behind(j as int));
        }
        assert(raft.log.contains_key(index));
    }
    if after.log.contains_key(index) {
        assert forall|k: u64| behind(k as int) && k <= index implies #[trigger]
            raft.log.contains_key(k) by {}
    }
}

/// Applying entries in two goes is applying them in one.
pub proof fn law_entries_apply_in_turn(
    state: StoreView,
    node_id: u64,
    first: Seq<EntryView>,
    second: Seq<EntryView>,
)
    ensures
        after_entries(state, node_id, first + second) == after_entries(
            after_entries(state, node_id, first),
            node_id,
            second,
        ),
        entry_results(state, node_id, first + second) == entry_results(state, node_id, first)
            + entry_results(after_entries(state, node_id, first), node_id, second),
    decreases second.len(),
{
    if second.len() == 0 {
        assert(first + second =~= first);
        assert(entry_results(state, node_id, first) + Seq::empty() =~= entry_results(
            state,
            node_id,
            first,
        ));
    } else {
        let front = second.drop_last();
        law_entries_apply_in_turn(state, node_id, first, front);
        assert((first + second).drop_last() =~= first + front);
        assert((first + second).last() == second.last());
        let a = entry_results(state, node_id, first);
        let b = entry_results(after_entries(state, node_id, first), node_id, front);
        let x = entry_result(
            after_entries(state, node_id, first + front),
            node_id,
            second.last(),
        );
        assert((a + b).push(x) =~= a + b.push(x));
    }
}

/// An entry with a command does what the command does and tells the writer what came of it; a
/// command that is refused, like any other entry, leaves the state alone.
pub proof fn law_entry_is_applied(state: StoreView, node_id: u64, entry: EntryView)
    ensures
        ({
            let after = after_entry(state, node_id, entry);
            let told = result_of(entry_result(state, node_id, entry));
            match entry.payload {
                PayloadView::Normal(command) => match outcome(state, node_id, command) {
                    Ok(next) => after == next && told is Ok,
                    Err(error) => after == state && told is Err && (!(error is Internal) ==> told
                        == Err::<(), StoreErrorView>(error)),
                },
                _ => after == state && told is Ok,
            }
        }),
{
}

/// Every entry is answered, in turn.
pub proof fn law_every_entry_is_answered(state: StoreView, node_id: u64, entries: Seq<EntryView>)
    ensures
        entry_results(state, node_id, entries).len() == entries.len(),
    decreases entries.len(),
{
    if entries.len() > 0 {
        law_every_entry_is_answered(state, node_id, entries.drop_last());
    }
}

/// After entries were applied, the last of them is marked as applied, the membership is that of the
/// last entry that sets one, and the log, the vote, the purge mark and the snapshot are untouched.
pub proof fn law_marks_after_entries(raft: RaftView, entries: Seq<EntryView>, i: int)
    ensures
        ({
            let after = raft_after(raft, entries);
            &&& entries.len() == 0 ==> after == raft
            &&& entries.len() > 0 ==> after.last_applied == Some(
                entries[entries.len() - 1].log_id,
            )
            &&& after.log == raft.log
            &&& after.vote == raft.vote
            &&& after.last_purged == raft.last_purged
            &&& after.snapshot == raft.snapshot
            &&& (forall|j: int|
                0 <= j < entries.len() ==> !((#[trigger] entries[j]).payload is Membership))
                ==> after.membership == raft.membership
            &&& 0 <= i < entries.len() && entries[i].payload is Membership && (forall|j: int|
                i < j < entries.len() ==> !((#[trigger] entries[j]).payload is Membership))
                ==> after.membership == Some(
                MembershipView {
                    log_id: Some(entries[i].log_id),
                    members: entries[i].payload->Membership_0,
                },
            )
        }),
{
    lemma_membership(raft.membership, entries, i);
}

proof fn lemma_membership(
    membership: Option<MembershipView>,
    entries: Seq<EntryView>,
    i: int,
)
    ensures
        (forall|j: int|
            0 <= j < entries.len() ==> !((#[trigger] entries[j]).payload is Membership))
            ==> membership_after(membership, entries) == membership,
        0 <= i < entries.len() && entries[i].payload is Membership && (forall|j: int|
            i < j < entries.len() ==> !((#[trigger] entries[j]).payload is Membership))
            ==> membership_after(membership, entries) == Some(
            MembershipView {
                log_id: Some(entries[i].log_id),
                members: entries[i].payload->Membership_0,
            },
        ),
    decreases entries.len(),
{
    if entries.len() > 0 {
        let front = entries.drop_last();
        let last = entries.len() - 1;
        lemma_membership(membership, front, i);
        assert(entries[last] == entries.last());
        if forall|j: int|
            0 <= j < entries.len() ==> !((#[trigger] entries[j]).payload is Membership) {
            assert(!(entries[last].payload is Membership));
            assert forall|j: int| 0 <= j < front.len() implies !((
            #[trigger] front[j]).payload is Membership) by {
                assert(front[j] == entries[j]);
            }
        }
        if 0 <= i < last && entries[i].payload is Membership && (forall|j: int|
            i < j < entries.len() ==> !((#[trigger] entries[j]).payload is Membership)) {
            assert(!(entries[last].payload is Membership));
            assert(front[i] == entries[i]);
            assert forall|j: int| i < j < front.len() implies !((
            #[trigger] front[j]).payload is Membership) by {
                assert(front[j] == entries[j]);
            }
        }
    }
}

/// Installing a snapshot moves the marks to where the snapshot stands and drops the entries it
/// covers, no others; the vote stays. A snapshot of nothing drops nothing.
pub proof fn law_installed_marks(raft: RaftView, meta: SnapshotMetaView, index: u64)
    ensures
        ({
            let after = raft_installed(raft, meta);
            &&& after.last_applied == meta.last_log_id
            &&& after.membership == Some(meta.last_membership)
            &&& after.vote == raft.vote
            &&& after.snapshot == raft.snapshot
            &&& after.log.contains_key(index) <==> raft.log.contains_key(index) && (
            meta.last_log_id is Some ==> index > meta.last_log_id->0.index)
            &&& after.log.contains_key(index) ==> after.log[index] == raft.log[index]
            &&& meta.last_log_id is Some ==> after.last_purged == meta.last_log_id
            &&& meta.last_log_id is None ==> after.last_purged == raft.last_purged
        }),
{
}

/// A snapshot says where it was taken, and with which membership.
pub proof fn law_snapshot_stands_where_it_was_taken(state: StoreView, raft: RaftView)
    ensures
        meta_of(raft).last_log_id == raft.last_applied,
        raft.membership is Some ==> meta_of(raft).last_membership == raft.membership->0,
        raft.membership is None ==> meta_of(raft).last_membership.members.len() == 0
            && meta_of(raft).last_membership.log_id is None,
        snapshot_of(state, raft).last_applied == raft.last_applied,
        snapshot_of(state, raft).membership == meta_of(raft).last_membership,
{
}

/// A snapshot is named after what was applied: its term, the node that led then, and its index.
pub proof fn law_snapshot_is_named_after_what_was_applied(id: LogId)
    ensures
        snapshot_name(Some(id)) == "T"@ + decimal(id.term as int) + "-N"@ + decimal(
            id.node_id as int,
        ) + "-"@ + decimal(id.index as int),
        snapshot_name(None) == "empty"@,
{
}

/// Exactly one of the peers forms the cluster: the one with the least id. A node without peers does
/// it itself.
pub proof fn law_one_node_forms_the_cluster(peers: Seq<u64>, a: u64, b: u64)
    ensures
        peers.len() == 0 ==> is_lowest(a, peers),
        peers.len() > 0 && is_lowest(a, peers) && is_lowest(b, peers) ==> a == b,
        peers.len() > 0 && is_lowest(a, peers) ==> peers.contains(a),
        peers.contains(a) && a < b ==> !is_lowest(b, peers),
        peers.contains(a) && (forall|i: int| 0 <= i < peers.len() ==> a <= #[trigger] peers[i])
            ==> is_lowest(a, peers),
{
    if peers.contains(a) {
        let i = peers.index_of(a);
        assert(peers[i] == a);
    }
    if peers.contains(b) {
        let i = peers.index_of(b);
        assert(peers[i] == b);
    }
}

/// A write succeeds exactly where it was applied without an error. A node that does not lead passes
/// it on to the leader it knows, and to nobody else.
pub proof fn law_what_becomes_of_a_write(reply: WriteReply, step: WriteStep)
    requires
        write_step(reply, step),
    ensures
        step matches WriteStep::Answer(Ok(_)) <==> (reply matches WriteReply::Applied(result)
            && result@ is Done),
        step is Forward <==> (reply matches WriteReply::NotLeader { leader: Some(_) }),
        reply matches WriteReply::NotLeader { leader: Some(addr) } ==> (
        step matches WriteStep::Forward { url } && url@ == "http://"@ + addr@ + "/raft/apply"@),
        reply matches WriteReply::Applied(result) ==> (result@ is NotFound ==> (
        step matches WriteStep::Answer(Err(e)) && e@ is NotFound)) && (result@ is VersionConflict
            ==> (step matches WriteStep::Answer(Err(e)) && e@ is VersionConflict)) && (
        result@ matches ApplyResultView::Conflict(message) ==> (step matches WriteStep::Answer(
            Err(e),
        ) && e@ == StoreErrorView::Conflict(message))),
{
}

/// A write that was passed on succeeds exactly where the leader applied it without an error.
pub proof fn law_what_becomes_of_a_forwarded_write(reply: ForwardReply)
    ensures
        forward_answer(reply) is Ok <==> (reply matches ForwardReply::Applied(result)
            && result@ is Done),
        !(reply is Applied) ==> forward_answer(reply)->Err_0 is Internal,
        reply matches ForwardReply::Applied(result) ==> (result@ is NotFound ==> forward_answer(
            reply,
        )->Err_0 is NotFound) && (result@ is VersionConflict ==> forward_answer(
            reply,
        )->Err_0 is VersionConflict) && (result@ is Conflict ==> forward_answer(
            reply,
        )->Err_0 is Conflict),
{
}

} // verus!
