//! The log of a node, and what the node has recorded about it.

use std::collections::BTreeMap;
use vstd::prelude::*;
use vstd::std_specs::cmp::OrdSpec;
use vstd::std_specs::iter::IteratorSpec;
use crate::store::engine::values_where;
use crate::store::sorting::list_view;
use crate::store::table::{
    ascending, lemma_ascending_unique, lemma_ordered_has, lemma_rows_map_dom, lemma_rows_map_value,
    ordered, rows_map,
};
use super::types::{
    no_membership, EntryView, LogEntry, LogId, MembershipView, StoredMembership, Vote,
};

verus! {

/// The log entries by index, and the vote, the marks and the snapshot kept beside them.
pub struct RaftState {
    pub log: BTreeMap<u64, LogEntry>,
    pub vote: Option<Vote>,
    pub last_purged: Option<LogId>,
    pub last_applied: Option<LogId>,
    pub membership: Option<StoredMembership>,
    pub snapshot: Option<Vec<u8>>,
}

#[verifier::ext_equal]
pub struct RaftView {
    pub log: Map<u64, EntryView>,
    pub vote: Option<Vote>,
    pub last_purged: Option<LogId>,
    pub last_applied: Option<LogId>,
    pub membership: Option<MembershipView>,
    pub snapshot: Option<Seq<u8>>,
}

pub open spec fn membership_view(membership: Option<StoredMembership>) -> Option<MembershipView> {
    match membership {
        Some(m) => Some(m@),
        None => None,
    }
}

pub open spec fn bytes_view(bytes: Option<Vec<u8>>) -> Option<Seq<u8>> {
    match bytes {
        Some(b) => Some(b@),
        None => None,
    }
}

/// The entries of a log, by their indexes.
pub open spec fn entries_of(log: BTreeMap<u64, LogEntry>) -> Map<u64, EntryView> {
    log@.map_values(|entry: LogEntry| entry@)
}

/// The indexes of a log in ascending order.
fn indexes(log: &BTreeMap<u64, LogEntry>) -> (r: Vec<u64>)
    ensures
        r@.len() == ordered::<u64, EntryView>(entries_of(*log)).len(),
        forall|i: int|
            0 <= i < r@.len() ==> #[trigger] r@[i] == ordered::<u64, EntryView>(
                entries_of(*log),
            )[i].0,
        ascending::<u64, EntryView>(ordered::<u64, EntryView>(entries_of(*log))),
        rows_map(ordered::<u64, EntryView>(entries_of(*log))) == entries_of(*log),
{
    broadcast use vstd::laws_cmp::group_laws_cmp;

    let mut out: Vec<u64> = Vec::new();
    for key in it: log.keys()
        invariant
            out@.len() == it.index(),
            forall|i: int| 0 <= i < out@.len() ==> #[trigger] out@[i] == *it.seq()[i],
    {
        out.push(*key);
    }
    assert forall|k: u64| log@.contains_key(k) <==> #[trigger] out@.contains(k) by {
        assert(out@ =~= log.keys().remaining().unref());
        assert(out@.to_set().contains(k) <==> log@.dom().contains(k));
    }
    assert forall|i: int, j: int| 0 <= i < j < out@.len() implies out@[i] < out@[j] by {
        let keys = log.keys().remaining();
        assert(vstd::laws_cmp::obeys_cmp::<&u64>());
        assert(vstd::std_specs::btree::increasing_seq(keys));
        assert(OrdSpec::cmp_spec(&keys[i], &keys[j]) is Less);
    }
    proof {
        lemma_rows_by_index(entries_of(*log), out@);
    }
    out
}

/// The rows of a log, given its indexes in ascending order.
proof fn lemma_rows_by_index(log: Map<u64, EntryView>, indexes: Seq<u64>)
    requires
        forall|i: int, j: int| 0 <= i < j < indexes.len() ==> indexes[i] < indexes[j],
        forall|k: u64| log.contains_key(k) <==> #[trigger] indexes.contains(k),
    ensures
        ordered::<u64, EntryView>(log) == Seq::new(
            indexes.len(),
            |i: int| (indexes[i], log[indexes[i]]),
        ),
        ascending::<u64, EntryView>(ordered::<u64, EntryView>(log)),
        rows_map(ordered::<u64, EntryView>(log)) == log,
{
    let rows = Seq::new(indexes.len(), |i: int| (indexes[i], log[indexes[i]]));
    assert(ascending::<u64, EntryView>(rows));
    assert forall|k: u64| #[trigger] rows_map(rows).dom().contains(k) == log.dom().contains(k) by {
        lemma_rows_map_dom(rows, k);
        if log.contains_key(k) {
            assert(indexes.contains(k));
            let i = indexes.index_of(k);
            assert(rows[i].0 == k);
        }
        if rows_map(rows).contains_key(k) {
            let i = choose|i: int| 0 <= i < rows.len() && (#[trigger] rows[i]).0 == k;
            assert(indexes[i] == k);
            assert(indexes.contains(k));
        }
    }
    assert forall|k: u64| #[trigger] log.dom().contains(k) implies rows_map(rows)[k] == log[k] by {
        assert(indexes.contains(k));
        let i = indexes.index_of(k);
        lemma_rows_map_value::<u64, EntryView>(rows, i);
    }
    assert(rows_map(rows) =~= log);
    lemma_ascending_unique::<u64, EntryView>(rows, ordered::<u64, EntryView>(log));
}

impl View for RaftState {
    type V = RaftView;

    open spec fn view(&self) -> RaftView {
        RaftView {
            log: entries_of(self.log),
            vote: self.vote,
            last_purged: self.last_purged,
            last_applied: self.last_applied,
            membership: membership_view(self.membership),
            snapshot: bytes_view(self.snapshot),
        }
    }
}

/// The state of a node that has not taken part in a cluster.
pub open spec fn blank_raft() -> RaftView {
    RaftView {
        log: Map::empty(),
        vote: None,
        last_purged: None,
        last_applied: None,
        membership: None,
        snapshot: None,
    }
}

/// The index up to which the log is covered: what was applied or, failing that, purged.
pub open spec fn floor_of(raft: RaftView) -> Option<u64> {
    match raft.last_applied {
        Some(applied) => Some(applied.index),
        None => match raft.last_purged {
            Some(purged) => Some(purged.index),
            None => None,
        },
    }
}

/// The first index that is not covered.
pub open spec fn start_of(raft: RaftView) -> int {
    match floor_of(raft) {
        Some(index) => index + 1,
        None => 0,
    }
}

/// Whether every index from `start` to `index` is in the log.
pub open spec fn unbroken(log: Map<u64, EntryView>, start: int, index: int) -> bool {
    start <= index && forall|j: u64| start <= j <= index ==> #[trigger] log.contains_key(j)
}

/// Whether the mark of what was purged lags behind what was applied.
pub open spec fn purged_lags(raft: RaftView) -> bool {
    match (raft.last_applied, raft.last_purged) {
        (Some(applied), Some(purged)) => purged.index < applied.index,
        (Some(_), None) => true,
        _ => false,
    }
}

/// A log without the entries that are covered and without those behind the first gap, and with
/// the mark of what was purged brought up to what was applied.
pub open spec fn normalized(raft: RaftView) -> RaftView {
    RaftView {
        log: Map::new(
            |index: u64|
                raft.log.contains_key(index) && unbroken(raft.log, start_of(raft), index as int),
            |index: u64| raft.log[index],
        ),
        last_purged: if purged_lags(raft) {
            raft.last_applied
        } else {
            raft.last_purged
        },
        ..raft
    }
}

/// The last purged and the last present log id.
#[derive(Debug, Clone, Copy)]
pub struct LogState {
    pub last_purged_log_id: Option<LogId>,
    pub last_log_id: Option<LogId>,
}

/// What the log holds. Where the first entry does not follow on what was purged, what was applied
/// counts as purged.
pub open spec fn log_state_of(raft: RaftView) -> LogState {
    let rows = ordered::<u64, EntryView>(raft.log);
    let after_purged: int = match raft.last_purged {
        Some(purged) => purged.index + 1,
        None => 0,
    };
    let last_purged = if rows.len() > 0 && after_purged < rows[0].0 && raft.last_applied is Some {
        raft.last_applied
    } else {
        raft.last_purged
    };
    LogState {
        last_purged_log_id: last_purged,
        last_log_id: if rows.len() > 0 {
            Some(rows.last().1.log_id)
        } else {
            last_purged
        },
    }
}

/// A log with entries added, each under its index.
pub open spec fn appended(log: Map<u64, EntryView>, entries: Seq<EntryView>) -> Map<u64, EntryView>
    decreases entries.len(),
{
    if entries.len() == 0 {
        log
    } else {
        appended(log, entries.drop_last()).insert(entries.last().log_id.index, entries.last())
    }
}

impl RaftState {
    pub fn new() -> (r: RaftState)
        ensures
            r@ == blank_raft(),
    {
        RaftState {
            log: BTreeMap::new(),
            vote: None,
            last_purged: None,
            last_applied: None,
            membership: None,
            snapshot: None,
        }
    }

    /// The membership, or the empty one where none was set.
    pub fn members(&self) -> (r: StoredMembership)
        ensures
            r@ == match self@.membership {
                Some(m) => m,
                None => no_membership(),
            },
    {
        match &self.membership {
            Some(m) => m.clone(),
            None => StoredMembership::default(),
        }
    }

    /// Copies of the entries from `from` on, up to but not including `to`.
    pub fn try_get_log_entries(&self, from: u64, to: Option<u64>) -> (r: Vec<LogEntry>)
        ensures
            list_view(r@) == values_where(
                ordered::<u64, EntryView>(self@.log),
                |index: u64, entry: EntryView| from <= index && (to is Some ==> index < to->0),
            ),
    {
        let indexes = indexes(&self.log);
        let count = indexes.len();
        let ghost rows = ordered::<u64, EntryView>(self@.log);
        let ghost keep = |index: u64, entry: EntryView|
            from <= index && (to is Some ==> index < to->0);
        let mut out: Vec<LogEntry> = Vec::new();
        let mut i: usize = 0;
        assert(list_view(out@) =~= values_where(rows.take(0), keep));
        while i < count
            invariant
                i <= count == indexes@.len() == rows.len(),
                rows == ordered::<u64, EntryView>(self@.log),
                ascending::<u64, EntryView>(rows),
                rows_map(rows) == self@.log,
                forall|j: int| 0 <= j < indexes@.len() ==> #[trigger] indexes@[j] == rows[j].0,
                keep == (|index: u64, entry: EntryView|
                    from <= index && (to is Some ==> index < to->0)),
                list_view(out@) == values_where(rows.take(i as int), keep),
            decreases count - i,
        {
            let ghost before = out@;
            assert(rows.take(i as int + 1).drop_last() =~= rows.take(i as int));
            let index = indexes[i];
            let below = match to {
                Some(end) => index < end,
                None => true,
            };
            assert(self.log@.contains_key(index) && self.log@[index]@ == rows[i as int].1) by {
                lemma_ordered_has::<u64, EntryView>(self@.log, index);
                assert(self@.log.contains_key(index));
            }
            if from <= index && below {
                if let Some(entry) = self.log.get(&index) {
                    out.push(entry.clone());
                    assert(list_view(out@) =~= list_view(before).push(rows[i as int].1));
                }
            }
            i = i + 1;
        }
        assert(rows.take(i as int) =~= rows);
        out
    }

    /// What the log holds.
    pub fn get_log_state(&self) -> (r: LogState)
        requires
            self@.last_purged is Some ==> self@.last_purged->0.index < u64::MAX,
        ensures
            r == log_state_of(self@),
    {
        let indexes = indexes(&self.log);
        let count = indexes.len();
        let mut last_purged = self.last_purged;
        if count > 0 {
            let after_purged: u64 = match self.last_purged {
                Some(purged) => purged.index + 1,
                None => 0,
            };
            if after_purged < indexes[0] && self.last_applied.is_some() {
                last_purged = self.last_applied;
            }
        }
        let last_log_id = if count > 0 {
            let last = indexes[count - 1];
            proof {
                lemma_ordered_has::<u64, EntryView>(self@.log, last);
                assert(self@.log.contains_key(last));
            }
            match self.log.get(&last) {
                Some(entry) => Some(entry.log_id),
                None => last_purged,
            }
        } else {
            last_purged
        };
        LogState { last_purged_log_id: last_purged, last_log_id }
    }

    pub fn save_vote(&mut self, vote: Vote)
        ensures
            final(self)@ == (RaftView { vote: Some(vote), ..old(self)@ }),
    {
        self.vote = Some(vote);
    }

    pub fn read_vote(&self) -> (r: Option<Vote>)
        ensures
            r == self@.vote,
    {
        self.vote
    }

    /// Adds entries, each under its index.
    pub fn append(&mut self, entries: &Vec<LogEntry>)
        ensures
            final(self)@ == (RaftView {
                log: appended(old(self)@.log, list_view(entries@)),
                ..old(self)@
            }),
    {
        let ghost before = self@;
        let ghost all = list_view(entries@);
        let mut i: usize = 0;
        assert(all.take(0) =~= Seq::empty());
        while i < entries.len()
            invariant
                i <= entries@.len() == all.len(),
                all == list_view(entries@),
                self@ == (RaftView { log: appended(before.log, all.take(i as int)), ..before }),
            decreases entries@.len() - i,
        {
            assert(all.take(i as int + 1).drop_last() =~= all.take(i as int));
            let ghost held = self.log;
            let entry = entries[i].clone();
            let index = entry.log_id.index;
            self.log.insert(index, entry);
            assert(entries_of(self.log) =~= entries_of(held).insert(index, all[i as int]));
            i = i + 1;
        }
        assert(all.take(i as int) =~= all);
    }

    /// Removes the entries from `from` up to and including `to`; names the indexes removed.
    fn remove_range(&mut self, from: u64, to: u64) -> (r: Vec<u64>)
        ensures
            final(self)@ == (RaftView {
                log: old(self)@.log.remove_keys(Set::new(|k: u64| from <= k <= to)),
                ..old(self)@
            }),
            forall|k: u64|
                r@.contains(k) <==> #[trigger] old(self)@.log.contains_key(k) && from <= k <= to,
    {
        let ghost before = self@;
        let ghost rows = ordered::<u64, EntryView>(before.log);
        let indexes = indexes(&self.log);
        let count = indexes.len();
        let mut gone: Vec<u64> = Vec::new();
        let mut i: usize = 0;
        while i < count
            invariant
                self@ == before,
                i <= count == indexes@.len() == rows.len(),
                rows == ordered::<u64, EntryView>(before.log),
                ascending::<u64, EntryView>(rows),
                rows_map(rows) == before.log,
                forall|j: int| 0 <= j < indexes@.len() ==> #[trigger] indexes@[j] == rows[j].0,
                forall|j: int|
                    0 <= j < gone@.len() ==> before.log.contains_key(#[trigger] gone@[j]) && from
                        <= gone@[j] <= to,
                forall|m: int|
                    0 <= m < i && from <= (#[trigger] rows[m]).0 <= to ==> gone@.contains(
                        rows[m].0,
                    ),
            decreases count - i,
        {
            let index = indexes[i];
            let ghost held = gone@;
            proof {
                lemma_ordered_has::<u64, EntryView>(before.log, index);
            }
            if from <= index && index <= to {
                gone.push(index);
                assert(gone@[held.len() as int] == index);
            }
            assert forall|m: int|
                0 <= m < i + 1 && from <= (#[trigger] rows[m]).0 <= to implies gone@.contains(
                rows[m].0,
            ) by {
                if m < i {
                    let j = held.index_of(rows[m].0);
                    assert(gone@[j] == rows[m].0);
                }
            }
            i = i + 1;
        }
        proof {
            assert forall|k: u64| gone@.contains(k) <==> #[trigger] before.log.contains_key(k)
                && from <= k <= to by {
                lemma_ordered_has::<u64, EntryView>(before.log, k);
                if before.log.contains_key(k) && from <= k <= to {
                    let m = choose|m: int| 0 <= m < rows.len() && (#[trigger] rows[m]).0 == k;
                    assert(gone@.contains(rows[m].0));
                }
                if gone@.contains(k) {
                    let j = gone@.index_of(k);
                    assert(gone@[j] == k);
                }
            }
        }
        self.remove_indexes(&gone);
        proof {
            let goal = before.log.remove_keys(Set::new(|k: u64| from <= k <= to));
            assert forall|k: u64| #[trigger]
                self@.log.dom().contains(k) == goal.dom().contains(k) by {
                assert(before.log.contains_key(k) || !before.log.contains_key(k));
            }
            assert(self@.log =~= goal);
        }
        gone
    }

    fn remove_indexes(&mut self, gone: &Vec<u64>)
        ensures
            final(self)@ == (RaftView {
                log: old(self)@.log.remove_keys(Set::new(|k: u64| gone@.contains(k))),
                ..old(self)@
            }),
    {
        let ghost before = self@;
        let mut i: usize = 0;
        assert(before.log =~= before.log.remove_keys(
            Set::new(|k: u64| gone@.take(0).contains(k)),
        ));
        while i < gone.len()
            invariant
                i <= gone@.len(),
                self@ == (RaftView {
                    log: before.log.remove_keys(
                        Set::new(|k: u64| gone@.take(i as int).contains(k)),
                    ),
                    ..before
                }),
            decreases gone@.len() - i,
        {
            let ghost held = self.log;
            self.log.remove(&gone[i]);
            assert(entries_of(self.log) =~= entries_of(held).remove(gone@[i as int]));
            proof {
                let next = gone@.take(i as int + 1);
                let held = gone@.take(i as int);
                assert(next =~= held.push(gone@[i as int]));
                let goal = before.log.remove_keys(Set::new(|k: u64| next.contains(k)));
                assert forall|k: u64| #[trigger]
                    self@.log.dom().contains(k) == goal.dom().contains(k) by {
                    if next.contains(k) && k != gone@[i as int] {
                        let j = next.index_of(k);
                        assert(held[j] == k);
                    }
                    if held.contains(k) {
                        let j = held.index_of(k);
                        assert(next[j] == k);
                    }
                    assert(next[i as int] == gone@[i as int]);
                }
                assert(self@.log =~= goal);
            }
            i = i + 1;
        }
        assert(gone@.take(i as int) =~= gone@);
    }

    /// Removes the entries from the given one on; names the indexes removed.
    pub fn truncate(&mut self, log_id: LogId) -> (r: Vec<u64>)
        ensures
            final(self)@ == (RaftView {
                log: old(self)@.log.remove_keys(Set::new(|k: u64| log_id.index <= k)),
                ..old(self)@
            }),
            forall|k: u64|
                r@.contains(k) <==> #[trigger] old(self)@.log.contains_key(k) && log_id.index <= k,
    {
        let gone = self.remove_range(log_id.index, u64::MAX);
        assert(self@.log =~= old(self)@.log.remove_keys(Set::new(|k: u64| log_id.index <= k)));
        gone
    }

    /// Removes the entries up to and including the given one and marks it as purged; names the
    /// indexes removed.
    pub fn purge(&mut self, log_id: LogId) -> (r: Vec<u64>)
        ensures
            final(self)@ == (RaftView {
                log: old(self)@.log.remove_keys(Set::new(|k: u64| k <= log_id.index)),
                last_purged: Some(log_id),
                ..old(self)@
            }),
            forall|k: u64|
                r@.contains(k) <==> #[trigger] old(self)@.log.contains_key(k) && k <= log_id.index,
    {
        let gone = self.remove_range(0, log_id.index);
        self.last_purged = Some(log_id);
        assert(self@.log =~= old(self)@.log.remove_keys(Set::new(|k: u64| k <= log_id.index)));
        gone
    }
}

/// Drops the entries that are covered by what was applied or purged and those behind the first
/// gap, and brings the mark of what was purged up to what was applied, so that the log is
/// contiguous after a partial snapshot. Names the indexes removed.
pub fn normalize_raft_log(raft: &mut RaftState) -> (r: Vec<u64>)
    requires
        floor_of(old(raft)@) is Some ==> floor_of(old(raft)@)->0 < u64::MAX,
    ensures
        final(raft)@ == normalized(old(raft)@),
        forall|k: u64|
            r@.contains(k) <==> #[trigger] old(raft)@.log.contains_key(k)
                && !final(raft)@.log.contains_key(k),
{
    let ghost before = raft@;
    let ghost log = before.log;
    let ghost rows = ordered::<u64, EntryView>(log);
    let floor: Option<u64> = match raft.last_applied {
        Some(applied) => Some(applied.index),
        None => match raft.last_purged {
            Some(purged) => Some(purged.index),
            None => None,
        },
    };
    let start: u64 = match floor {
        Some(index) => index + 1,
        None => 0,
    };
    let indexes = indexes(&raft.log);
    let count = indexes.len();
    let mut gone: Vec<u64> = Vec::new();
    let mut expected: u64 = start;
    let mut full = false;
    let mut truncating = false;
    let mut i: usize = 0;
    while i < count
        invariant
            raft@ == before,
            log == before.log,
            start == start_of(before),
            floor == floor_of(before),
            i <= count == indexes@.len() == rows.len(),
            rows == ordered::<u64, EntryView>(log),
            forall|j: int| 0 <= j < indexes@.len() ==> #[trigger] indexes@[j] == rows[j].0,
            ascending::<u64, EntryView>(rows),
            rows_map(rows) == log,
            start <= expected,
            forall|j: u64| start <= j < expected ==> #[trigger] log.contains_key(j),
            full ==> i == count,
            !truncating && !full ==> forall|m: int| 0 <= m < i ==> (#[trigger] rows[m]).0 < expected,
            !truncating && !full ==> expected == start || (i > 0 && rows[i - 1].0 == expected - 1),
            truncating ==> i > 0 && rows[i - 1].0 > expected && !log.contains_key(expected),
            forall|j: int|
                0 <= j < gone@.len() ==> log.contains_key(#[trigger] gone@[j]) && !unbroken(
                    log,
                    start as int,
                    gone@[j] as int,
                ),
            forall|m: int|
                0 <= m < i && !unbroken(
                    log,
                    start as int,
                    (#[trigger] rows[m]).0 as int,
                ) ==> gone@.contains(rows[m].0),
        decreases count - i,
    {
        let index = indexes[i];
        let ghost held = gone@;
        proof {
            lemma_ordered_has::<u64, EntryView>(log, index);
        }
        let covered = match floor {
            Some(f) => index <= f,
            None => false,
        };
        proof {
            assert forall|m: int| 0 <= m < i implies (#[trigger] rows[m]).0 < index by {
                assert(<u64 as crate::order::Key>::precedes(rows[m].0, rows[i as int].0));
            }
        }
        if truncating || covered {
            assert(!unbroken(log, start as int, index as int)) by {
                if truncating {
                    assert(!log.contains_key(expected));
                }
            }
            gone.push(index);
        } else if index == expected {
            assert(unbroken(log, start as int, index as int));
            if expected == u64::MAX {
                full = true;
                proof {
                    if i + 1 < count {
                        assert(<u64 as crate::order::Key>::precedes(
                            rows[i as int].0,
                            rows[i + 1].0,
                        ));
                    }
                }
            } else {
                expected = expected + 1;
            }
        } else {
            proof {
                assert(index > expected);
                lemma_ordered_has::<u64, EntryView>(log, expected);
                if log.contains_key(expected) {
                    let m = choose|m: int|
                        0 <= m < rows.len() && (#[trigger] rows[m]).0 == expected;
                    if m > i {
                        assert(<u64 as crate::order::Key>::precedes(rows[i as int].0, rows[m].0));
                    }
                }
            }
            assert(!unbroken(log, start as int, index as int)) by {
                assert(!log.contains_key(expected));
            }
            gone.push(index);
            truncating = true;
        }
        assert forall|m: int|
            0 <= m < i + 1 && !unbroken(
                log,
                start as int,
                (#[trigger] rows[m]).0 as int,
            ) implies gone@.contains(rows[m].0) by {
            if m < i {
                let j = held.index_of(rows[m].0);
                assert(gone@[j] == rows[m].0);
            } else {
                assert(gone@[held.len() as int] == index);
            }
        }
        i = i + 1;
    }
    proof {
        assert forall|k: u64| gone@.contains(k) <==> #[trigger] log.contains_key(k) && !unbroken(
            log,
            start as int,
            k as int,
        ) by {
            lemma_ordered_has::<u64, EntryView>(log, k);
            if log.contains_key(k) && !unbroken(log, start as int, k as int) {
                let m = choose|m: int| 0 <= m < rows.len() && (#[trigger] rows[m]).0 == k;
                assert(gone@.contains(rows[m].0));
            }
            if gone@.contains(k) {
                let j = gone@.index_of(k);
                assert(gone@[j] == k);
            }
        }
    }
    raft.remove_indexes(&gone);
    let lags = match (raft.last_applied, raft.last_purged) {
        (Some(applied), Some(purged)) => purged.index < applied.index,
        (Some(_), None) => true,
        _ => false,
    };
    if lags {
        raft.last_purged = raft.last_applied;
    }
    proof {
        let goal = normalized(before);
        assert forall|k: u64| #[trigger] raft@.log.dom().contains(k) == goal.log.dom().contains(k) by {
            assert(log.contains_key(k) || !log.contains_key(k));
        }
        assert(raft@.log =~= goal.log);
    }
    gone
}

/// Forgets the log and everything recorded about it, so that the node can join afresh.
pub fn reset_raft_state(raft: &mut RaftState)
    ensures
        final(raft)@ == blank_raft(),
{
    *raft = RaftState::new();
}

/// After normalising, the log starts right behind what is covered and has no gap.
pub proof fn law_normalized_is_contiguous(raft: RaftView, index: u64, below: u64)
    requires
        normalized(raft).log.contains_key(index),
        start_of(raft) <= below <= index,
    ensures
        start_of(raft) <= index,
        normalized(raft).log.contains_key(below),
        normalized(raft).log[index] == raft.log[index],
{
}

/// After normalising, nothing that was applied is still to be purged.
pub proof fn law_normalized_purged_follows_applied(raft: RaftView)
    requires
        raft.last_applied is Some,
    ensures
        normalized(raft).last_purged is Some,
        normalized(raft).last_purged->0.index >= raft.last_applied->0.index,
{
}

/// Normalising once is enough.
pub proof fn law_normalize_is_idempotent(raft: RaftView)
    ensures
        normalized(normalized(raft)) == normalized(raft),
{
    let once = normalized(raft);
    let twice = normalized(once);
    if start_of(once) == start_of(raft) {
        assert forall|k: u64| #[trigger] twice.log.dom().contains(k) == once.log.dom().contains(
            k,
        ) by {
            if once.log.contains_key(k) {
                assert forall|j: u64| start_of(raft) <= j <= k implies #[trigger]
                    once.log.contains_key(j) by {
                    assert(raft.log.contains_key(j));
                }
            }
        }
    }
    assert(twice.log =~= once.log);
}

} // verus!
