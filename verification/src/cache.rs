//! A cache of unwrapped data keys, bounded in size and in time.

use vstd::prelude::*;
use crate::crypto::Dek;
use crate::store::table::{lemma_ordered_has, ordered, Table};
use crate::text::clone_bytes;

verus! {

/// The most entries that the cache holds.
pub const MAX_ENTRIES: usize = 16_384;

/// A cached data key and when it was stored, in nanoseconds of a clock that never goes back.
pub struct CachedDek {
    pub stored: u128,
    pub dek: Dek,
}

pub struct CachedView {
    pub stored: u128,
    pub dek: Seq<u8>,
}

impl View for CachedDek {
    type V = CachedView;

    open spec fn view(&self) -> CachedView {
        CachedView { stored: self.stored, dek: self.dek@ }
    }
}

/// The cached keys by their wrapped form.
pub type Entries = Map<Seq<u8>, CachedView>;

/// Data keys by their wrapped form, each usable for `ttl` nanoseconds.
pub struct DekCache {
    ttl: u128,
    map: Table<Vec<u8>, CachedDek>,
}

impl View for DekCache {
    type V = Entries;

    closed spec fn view(&self) -> Entries {
        self.map@
    }
}

/// How long ago an entry was stored.
pub open spec fn age(entry: CachedView, now: int) -> int {
    if now >= entry.stored {
        now - entry.stored
    } else {
        0
    }
}

/// Whether an entry is still usable.
pub open spec fn fresh(entry: CachedView, now: int, ttl: int) -> bool {
    age(entry, now) < ttl
}

/// The entries that are still usable.
pub open spec fn fresh_entries(entries: Entries, now: int, ttl: int) -> Entries {
    Map::new(
        |key: Seq<u8>| entries.contains_key(key) && fresh(entries[key], now, ttl),
        |key: Seq<u8>| entries[key],
    )
}

/// What is left when room has to be made: a full cache first loses what is no longer usable.
pub open spec fn pruned(entries: Entries, now: int, ttl: int) -> Entries {
    if entries.dom().len() >= MAX_ENTRIES {
        fresh_entries(entries, now, ttl)
    } else {
        entries
    }
}

/// Whether no entry is older than the one under `key`.
pub open spec fn oldest(entries: Entries, key: Seq<u8>) -> bool {
    entries.contains_key(key) && forall|other: Seq<u8>| #[trigger]
        entries.contains_key(other) ==> entries[key].stored <= entries[other].stored
}

/// Whether `after` is the cache after storing an entry: where pruning leaves it full, one of the
/// oldest entries makes room.
pub open spec fn stored_into(
    before: Entries,
    after: Entries,
    key: Seq<u8>,
    entry: CachedView,
    ttl: int,
) -> bool {
    let kept = pruned(before, entry.stored as int, ttl);
    if kept.dom().len() >= MAX_ENTRIES {
        exists|victim: Seq<u8>| #[trigger]
            oldest(kept, victim) && after == kept.remove(victim).insert(key, entry)
    } else {
        after == kept.insert(key, entry)
    }
}

impl DekCache {
    #[verifier::type_invariant]
    spec fn bounded(self) -> bool {
        self.map@.dom().finite() && self.map@.dom().len() <= MAX_ENTRIES
    }

    /// How long an entry is usable, in nanoseconds.
    pub closed spec fn ttl(&self) -> u128 {
        self.ttl
    }

    /// A cache whose entries are usable for the given number of seconds; zero disables it.
    pub fn new(ttl_secs: u64) -> (r: Self)
        ensures
            r@ == Map::<Seq<u8>, CachedView>::empty(),
            r.ttl() == ttl_secs * 1_000_000_000,
    {
        DekCache { ttl: ttl_secs as u128 * 1_000_000_000, map: Table::new() }
    }

    pub fn enabled(&self) -> (r: bool)
        ensures
            r == (self.ttl() != 0),
    {
        self.ttl != 0
    }

    /// The number of entries, never more than the bound.
    pub fn len(&self) -> (r: usize)
        ensures
            self@.dom().finite(),
            r == self@.dom().len(),
            r <= MAX_ENTRIES,
    {
        proof {
            use_type_invariant(self);
        }
        self.map.len()
    }

    /// The data key of a wrapped key, if it is cached and still usable; an entry that is not is
    /// removed.
    pub fn get(&mut self, wrapped: &Vec<u8>, now: u128) -> (r: Option<Dek>)
        ensures
            final(self).ttl() == old(self).ttl(),
            ({
                let before = old(self)@;
                let key = wrapped@;
                if old(self).ttl() == 0 || !before.contains_key(key) {
                    r is None && final(self)@ == before
                } else if fresh(before[key], now as int, old(self).ttl() as int) {
                    r matches Some(dek) && dek@ == before[key].dek && final(self)@ == before
                } else {
                    r is None && final(self)@ == before.remove(key)
                }
            }),
    {
        proof {
            use_type_invariant(&*self);
        }
        if self.ttl == 0 {
            return None;
        }
        let found = match self.map.get(wrapped) {
            Some(entry) => if now < entry.stored || now - entry.stored < self.ttl {
                Some(entry.dek.clone())
            } else {
                None
            },
            None => return None,
        };
        if found.is_none() {
            let mut map: Table<Vec<u8>, CachedDek> = Table::new();
            std::mem::swap(&mut map, &mut self.map);
            map.remove(wrapped);
            self.map = map;
        }
        found
    }

    /// Caches the data key of a wrapped key.
    pub fn put(&mut self, wrapped: Vec<u8>, dek: Dek, now: u128)
        ensures
            final(self).ttl() == old(self).ttl(),
            if old(self).ttl() == 0 {
                final(self)@ == old(self)@
            } else {
                stored_into(
                    old(self)@,
                    final(self)@,
                    wrapped@,
                    CachedView { stored: now, dek: dek@ },
                    old(self).ttl() as int,
                )
            },
    {
        proof {
            use_type_invariant(&*self);
        }
        if self.ttl == 0 {
            return;
        }
        let ghost before = self.map@;
        let ghost ttl = self.ttl as int;
        let ghost entry = CachedView { stored: now, dek: dek@ };
        let mut map: Table<Vec<u8>, CachedDek> = Table::new();
        std::mem::swap(&mut map, &mut self.map);
        if map.len() >= MAX_ENTRIES {
            prune(&mut map, now, self.ttl);
        }
        let ghost kept = map@;
        if map.len() >= MAX_ENTRIES {
            let victim = find_oldest(&map);
            map.remove(&victim);
            assert(oldest(kept, victim@));
        }
        map.len();
        map.insert(wrapped, CachedDek { stored: now, dek });
        map.len();
        self.map = map;
    }
}

/// Removes the entries that are no longer usable.
fn prune(map: &mut Table<Vec<u8>, CachedDek>, now: u128, ttl: u128)
    requires
        ttl > 0,
    ensures
        final(map)@ == fresh_entries(old(map)@, now as int, ttl as int),
        final(map)@.dom().len() <= old(map)@.dom().len(),
{
    let ghost before = map@;
    let ghost rows = ordered::<Vec<u8>, CachedView>(before);
    let count = map.len();
    let mut kept: Table<Vec<u8>, CachedDek> = Table::new();
    let mut i: usize = 0;
    assert(kept@.dom() =~= Set::empty());
    while i < count
        invariant
            map@ == before,
            i <= count == rows.len(),
            rows == ordered::<Vec<u8>, CachedView>(before),
            ttl > 0,
            kept@.dom().finite(),
            kept@.dom().len() <= i,
            forall|key: Seq<u8>| #[trigger]
                kept@.contains_key(key) ==> before.contains_key(key) && kept@[key] == before[key]
                    && fresh(before[key], now as int, ttl as int),
            forall|m: int|
                0 <= m < i && fresh((#[trigger] rows[m]).1, now as int, ttl as int)
                    ==> kept@.contains_key(rows[m].0),
        decreases count - i,
    {
        let row = map.row(i);
        if now < row.value.stored || now - row.value.stored < ttl {
            kept.insert(
                clone_bytes(row.key.as_slice()),
                CachedDek { stored: row.value.stored, dek: row.value.dek.clone() },
            );
        }
        i = i + 1;
    }
    proof {
        let goal = fresh_entries(before, now as int, ttl as int);
        assert forall|key: Seq<u8>| #[trigger] kept@.dom().contains(key) == goal.dom().contains(
            key,
        ) by {
            lemma_ordered_has::<Vec<u8>, CachedView>(before, key);
            if goal.contains_key(key) {
                let m = choose|m: int| 0 <= m < rows.len() && (#[trigger] rows[m]).0 == key;
                assert(kept@.contains_key(rows[m].0));
            }
            if kept@.contains_key(key) {
                assert(goal.contains_key(key));
            }
        }
        assert(kept@ =~= goal);
    }
    std::mem::swap(map, &mut kept);
}

/// The key of an entry that none is older than.
fn find_oldest(map: &Table<Vec<u8>, CachedDek>) -> (r: Vec<u8>)
    requires
        map@.dom().len() > 0,
    ensures
        oldest(map@, r@),
{
    let count = map.len();
    let ghost rows = ordered::<Vec<u8>, CachedView>(map@);
    let mut best: usize = 0;
    let mut i: usize = 1;
    while i < count
        invariant
            1 <= i <= count == rows.len(),
            best < i,
            rows == ordered::<Vec<u8>, CachedView>(map@),
            forall|m: int| 0 <= m < i ==> rows[best as int].1.stored <= (#[trigger] rows[m]).1.stored,
        decreases count - i,
    {
        if map.row(i).value.stored < map.row(best).value.stored {
            best = i;
        }
        i = i + 1;
    }
    let key = clone_bytes(map.row(best).key.as_slice());
    proof {
        assert forall|other: Seq<u8>| #[trigger] map@.contains_key(other) implies map@[key@].stored
            <= map@[other].stored by {
            lemma_ordered_has::<Vec<u8>, CachedView>(map@, other);
            let m = choose|m: int| 0 <= m < rows.len() && (#[trigger] rows[m]).0 == other;
            assert(rows[m].1 == map@[other]);
        }
    }
    key
}

/// A key that was just cached is found until its time is up, and not longer.
pub proof fn law_cached_until_ttl(
    before: Entries,
    after: Entries,
    key: Seq<u8>,
    entry: CachedView,
    ttl: int,
    now: int,
)
    requires
        stored_into(before, after, key, entry, ttl),
        now >= entry.stored,
    ensures
        after.contains_key(key),
        after[key] == entry,
        fresh(after[key], now, ttl) <==> now < entry.stored + ttl,
{
}

} // verus!
