//! Reading the stored state.

use vstd::prelude::*;
use crate::order::{text_precedes, Key, Rank};
use crate::rotation::{active_at, is_due, version_active};
use super::apply::row_of;
use super::keys::{
    belongs_to, key_of, law_range_is_prefix, version_key, version_lower, version_upper,
};
use super::laws::keyed_by_name;
use super::model::{
    RoleRecord, RoleView, SecretRecord, SecretView, TokenRecord, TokenView, VersionRecord,
    VersionView,
};
use super::sorting::{law_sorted_in_order, list_view, place, stably_sorted, Ranked};
use super::table::{ascending, lemma_ordered_exists, lemma_ordered_has, ordered, Duplicate, Table};
use super::tables::{StoreView, Tables};

verus! {

/// The values of the rows that `keep` selects, in the order of the rows.
pub open spec fn values_where<A, B>(rows: Seq<(A, B)>, keep: spec_fn(A, B) -> bool) -> Seq<B>
    decreases rows.len(),
{
    if rows.len() == 0 {
        Seq::empty()
    } else {
        let front = values_where(rows.drop_last(), keep);
        if keep(rows.last().0, rows.last().1) {
            front.push(rows.last().1)
        } else {
            front
        }
    }
}

proof fn lemma_values_skip<A, B>(
    rows: Seq<(A, B)>,
    keep: spec_fn(A, B) -> bool,
    from: int,
    to: int,
)
    requires
        0 <= from <= to <= rows.len(),
        forall|i: int| from <= i < to ==> !keep((#[trigger] rows[i]).0, rows[i].1),
    ensures
        values_where(rows.take(from), keep) == values_where(rows.take(to), keep),
    decreases to - from,
{
    if from < to {
        lemma_values_skip(rows, keep, from, to - 1);
        assert(rows.take(to).drop_last() =~= rows.take(to - 1));
        assert(rows.take(to).last() == rows[to - 1]);
    }
}

impl Ranked for SecretRecord {
    open spec fn above(a: SecretView, b: SecretView) -> bool {
        text_precedes(a.name, b.name)
    }

    proof fn weak_order(a: SecretView, b: SecretView, c: SecretView) {
        lemma_text_weak_order(a.name, b.name, c.name);
    }

    fn is_above(&self, other: &SecretRecord) -> (r: bool) {
        text_before(&self.name, &other.name)
    }
}

impl Ranked for RoleRecord {
    open spec fn above(a: RoleView, b: RoleView) -> bool {
        text_precedes(a.name, b.name)
    }

    proof fn weak_order(a: RoleView, b: RoleView, c: RoleView) {
        lemma_text_weak_order(a.name, b.name, c.name);
    }

    fn is_above(&self, other: &RoleRecord) -> (r: bool) {
        text_before(&self.name, &other.name)
    }
}

impl Ranked for TokenRecord {
    open spec fn above(a: TokenView, b: TokenView) -> bool {
        text_precedes(a.name, b.name)
    }

    proof fn weak_order(a: TokenView, b: TokenView, c: TokenView) {
        lemma_text_weak_order(a.name, b.name, c.name);
    }

    fn is_above(&self, other: &TokenRecord) -> (r: bool) {
        text_before(&self.name, &other.name)
    }
}

impl Ranked for VersionRecord {
    /// The newest version stands first.
    open spec fn above(a: VersionView, b: VersionView) -> bool {
        a.version > b.version
    }

    proof fn weak_order(a: VersionView, b: VersionView, c: VersionView) {
    }

    fn is_above(&self, other: &VersionRecord) -> (r: bool) {
        self.version > other.version
    }
}

proof fn lemma_text_weak_order(a: Seq<char>, b: Seq<char>, c: Seq<char>)
    ensures
        !text_precedes(a, a),
        text_precedes(a, b) && text_precedes(b, c) ==> text_precedes(a, c),
        !text_precedes(a, b) && !text_precedes(b, c) ==> !text_precedes(a, c),
{
    <String as Key>::irreflexive(a);
    <String as Key>::total(a, b);
    <String as Key>::total(b, c);
    if text_precedes(a, b) && text_precedes(b, c) {
        <String as Key>::transitive(a, b, c);
    }
    if text_precedes(b, a) && text_precedes(a, c) {
        <String as Key>::transitive(b, a, c);
    }
    if text_precedes(a, c) && text_precedes(c, b) {
        <String as Key>::transitive(a, c, b);
    }
}

fn text_before(a: &String, b: &String) -> (r: bool)
    ensures
        r == text_precedes(a@, b@),
{
    match a.order(b) {
        Rank::Before => true,
        Rank::Same => {
            proof {
                <String as Key>::irreflexive(a@);
            }
            false
        },
        Rank::After => {
            proof {
                if text_precedes(a@, b@) {
                    <String as Key>::transitive(a@, b@, a@);
                    <String as Key>::irreflexive(a@);
                }
            }
            false
        },
    }
}

/// All values of a table, sorted by their rank.
pub open spec fn listed<K: Key, V: Ranked>(table: Map<K::V, V::V>) -> Seq<V::V> {
    stably_sorted::<V>(
        values_where(ordered::<K, V::V>(table), |key: K::V, value: V::V| true),
    )
}

/// Copies of all values of a table, sorted by their rank.
pub fn list_values<K: Key, V: Ranked + Duplicate>(table: &Table<K, V>) -> (r: Vec<V>)
    ensures
        list_view(r@) == listed::<K, V>(table@),
{
    let count = table.len();
    let ghost rows = ordered::<K, V::V>(table@);
    let ghost keep = |key: K::V, value: V::V| true;
    let mut out: Vec<V> = Vec::new();
    let mut i: usize = 0;
    assert(list_view(out@) =~= stably_sorted::<V>(values_where(rows.take(0), keep)));
    while i < count
        invariant
            i <= count == rows.len(),
            rows == ordered::<K, V::V>(table@),
            keep == (|key: K::V, value: V::V| true),
            list_view(out@) == stably_sorted::<V>(values_where(rows.take(i as int), keep)),
        decreases count - i,
    {
        proof {
            let next = rows.take(i as int + 1);
            assert(next.drop_last() =~= rows.take(i as int));
            assert(values_where(next, keep).drop_last() =~= values_where(
                rows.take(i as int),
                keep,
            ));
        }
        let row = table.row(i);
        place(&mut out, row.value.duplicate());
        i = i + 1;
    }
    assert(rows.take(i as int) =~= rows);
    out
}

/// The current version of a secret, with the secret.
pub open spec fn current_of(state: StoreView, name: Seq<char>) -> Option<(SecretView, VersionView)> {
    match row_of(state.secrets, name) {
        Some(secret) => match row_of(state.versions, key_of(name, secret.current_version as int)) {
            Some(version) => Some((secret, version)),
            None => None,
        },
        None => None,
    }
}

/// The versions of a secret that are valid at `now`, the newest first.
pub open spec fn live_of(state: StoreView, name: Seq<char>, now: int) -> Seq<VersionView> {
    stably_sorted::<VersionRecord>(
        values_where(
            ordered::<String, VersionView>(state.versions),
            |key: Seq<char>, version: VersionView|
                belongs_to(key, name) && active_at(now, version.expires_at),
        ),
    )
}

/// The secrets whose rotation is due at `now`, in the order of their names.
pub open spec fn due_of(state: StoreView, now: int) -> Seq<SecretView> {
    values_where(
        ordered::<String, SecretView>(state.secrets),
        |key: Seq<char>, secret: SecretView|
            secret.next_rotation_at is Some && secret.next_rotation_at->0 <= now,
    )
}

/// The valid versions of a secret, the newest first.
pub fn read_live_versions(tables: &Tables, name: &String, now: i64) -> (r: Vec<VersionRecord>)
    ensures
        list_view(r@) == live_of(tables@, name@, now as int),
{
    let count = tables.versions.len();
    let lower = version_lower(name.as_str());
    let upper = version_upper(name.as_str());
    let (from, to) = tables.versions.range(&lower, &upper);
    let ghost rows = ordered::<String, VersionView>(tables@.versions);
    let ghost keep = |key: Seq<char>, version: VersionView|
        belongs_to(key, name@) && active_at(now as int, version.expires_at);
    proof {
        assert forall|i: int| 0 <= i < rows.len() implies (from <= i < to <==> belongs_to(
            (#[trigger] rows[i]).0,
            name@,
        )) by {
            law_range_is_prefix(rows[i].0, name@);
        }
        lemma_values_skip(rows, keep, 0, from as int);
        lemma_values_skip(rows, keep, to as int, rows.len() as int);
        assert(values_where(rows.take(0), keep) =~= Seq::empty());
        assert(rows.take(rows.len() as int) =~= rows);
    }
    let mut out: Vec<VersionRecord> = Vec::new();
    let mut i: usize = from;
    assert(list_view(out@) =~= stably_sorted::<VersionRecord>(
        values_where(rows.take(from as int), keep),
    ));
    while i < to
        invariant
            from <= i <= to <= rows.len(),
            rows == ordered::<String, VersionView>(tables@.versions),
            keep == (|key: Seq<char>, version: VersionView|
                belongs_to(key, name@) && active_at(now as int, version.expires_at)),
            forall|j: int| from <= j < to ==> belongs_to((#[trigger] rows[j]).0, name@),
            list_view(out@) == stably_sorted::<VersionRecord>(
                values_where(rows.take(i as int), keep),
            ),
        decreases to - i,
    {
        proof {
            let next = rows.take(i as int + 1);
            assert(next.drop_last() =~= rows.take(i as int));
            assert(next.last() == rows[i as int]);
            if keep(next.last().0, next.last().1) {
                assert(values_where(next, keep).drop_last() =~= values_where(
                    rows.take(i as int),
                    keep,
                ));
            }
        }
        let row = tables.versions.row(i);
        if version_active(now, row.value.expires_at) {
            place(&mut out, row.value.clone());
        }
        i = i + 1;
    }
    out
}

/// The secrets whose rotation is due.
pub fn read_due_rotations(tables: &Tables, now: i64) -> (r: Vec<SecretRecord>)
    ensures
        list_view(r@) == due_of(tables@, now as int),
{
    let count = tables.secrets.len();
    let ghost rows = ordered::<String, SecretView>(tables@.secrets);
    let ghost keep = |key: Seq<char>, secret: SecretView|
        secret.next_rotation_at is Some && secret.next_rotation_at->0 <= now;
    let mut out: Vec<SecretRecord> = Vec::new();
    let mut i: usize = 0;
    assert(list_view(out@) =~= values_where(rows.take(0), keep));
    while i < count
        invariant
            i <= count == rows.len(),
            rows == ordered::<String, SecretView>(tables@.secrets),
            keep == (|key: Seq<char>, secret: SecretView|
                secret.next_rotation_at is Some && secret.next_rotation_at->0 <= now),
            list_view(out@) == values_where(rows.take(i as int), keep),
        decreases count - i,
    {
        let ghost before = out@;
        assert(rows.take(i as int + 1).drop_last() =~= rows.take(i as int));
        let row = tables.secrets.row(i);
        if let Some(next) = row.value.next_rotation_at {
            if is_due(now, next) {
                out.push(row.value.clone());
                assert(list_view(out@) =~= list_view(before).push(rows[i as int].1));
            }
        }
        i = i + 1;
    }
    assert(rows.take(i as int) =~= rows);
    out
}

/// The current version of a secret, with the secret.
pub fn read_current_version(tables: &Tables, name: &String) -> (r: Option<
    (SecretRecord, VersionRecord),
>)
    ensures
        match r {
            Some(pair) => current_of(tables@, name@) == Some((pair.0@, pair.1@)),
            None => current_of(tables@, name@) is None,
        },
{
    match tables.secrets.get(name) {
        Some(secret) => {
            let key = version_key(name.as_str(), secret.current_version);
            match tables.versions.get(&key) {
                Some(version) => Some((secret.clone(), version.clone())),
                None => None,
            }
        },
        None => None,
    }
}

proof fn lemma_values_members<A, B>(rows: Seq<(A, B)>, keep: spec_fn(A, B) -> bool, value: B)
    ensures
        values_where(rows, keep).contains(value) <==> exists|i: int|
            0 <= i < rows.len() && keep((#[trigger] rows[i]).0, rows[i].1) && rows[i].1 == value,
    decreases rows.len(),
{
    if rows.len() > 0 {
        let front = rows.drop_last();
        let kept = values_where(front, keep);
        lemma_values_members(front, keep, value);
        if values_where(rows, keep).contains(value) {
            let n = values_where(rows, keep).index_of(value);
            if n < kept.len() {
                assert(kept[n] == value);
                let i = choose|i: int|
                    0 <= i < front.len() && keep((#[trigger] front[i]).0, front[i].1)
                        && front[i].1 == value;
                assert(rows[i].1 == value);
            } else {
                assert(rows[rows.len() - 1].1 == value);
            }
        }
        if exists|i: int|
            0 <= i < rows.len() && keep((#[trigger] rows[i]).0, rows[i].1) && rows[i].1 == value {
            let i = choose|i: int|
                0 <= i < rows.len() && keep((#[trigger] rows[i]).0, rows[i].1) && rows[i].1
                    == value;
            if i < front.len() {
                assert(front[i].1 == value);
                let n = kept.index_of(value);
                assert(values_where(rows, keep)[n] == value);
            } else {
                assert(values_where(rows, keep).last() == value);
            }
        }
    }
}

/// The valid versions of a secret are listed, each of them and no other, the newest first.
pub proof fn law_live_versions(state: StoreView, name: Seq<char>, now: int, version: VersionView)
    requires
        state.versions.dom().finite(),
    ensures
        live_of(state, name, now).contains(version) <==> exists|key: Seq<char>| #[trigger]
            state.versions.contains_key(key) && belongs_to(key, name) && active_at(
                now,
                version.expires_at,
            ) && state.versions[key] == version,
        forall|i: int, j: int|
            0 <= i < j < live_of(state, name, now).len() ==> (#[trigger] live_of(
                state,
                name,
                now,
            )[i]).version >= (#[trigger] live_of(state, name, now)[j]).version,
{
    broadcast use vstd::seq_lib::group_to_multiset_ensures;

    let rows = ordered::<String, VersionView>(state.versions);
    let keep = |key: Seq<char>, v: VersionView|
        belongs_to(key, name) && active_at(now, v.expires_at);
    let kept = values_where(rows, keep);
    let live = live_of(state, name, now);
    law_sorted_in_order::<VersionRecord>(kept);
    lemma_ordered_exists::<String, VersionView>(state.versions);
    lemma_values_members(rows, keep, version);
    assert(live.contains(version) <==> kept.contains(version)) by {
        assert(live.to_multiset().contains(version) <==> live.contains(version));
        assert(kept.to_multiset().contains(version) <==> kept.contains(version));
    }
    if kept.contains(version) {
        let i = choose|i: int|
            0 <= i < rows.len() && keep((#[trigger] rows[i]).0, rows[i].1) && rows[i].1 == version;
        lemma_ordered_has::<String, VersionView>(state.versions, rows[i].0);
        assert(state.versions.contains_key(rows[i].0));
    }
    if exists|key: Seq<char>| #[trigger]
        state.versions.contains_key(key) && belongs_to(key, name) && active_at(
            now,
            version.expires_at,
        ) && state.versions[key] == version {
        let key = choose|key: Seq<char>| #[trigger]
            state.versions.contains_key(key) && belongs_to(key, name) && active_at(
                now,
                version.expires_at,
            ) && state.versions[key] == version;
        lemma_ordered_has::<String, VersionView>(state.versions, key);
        let i = choose|i: int| 0 <= i < rows.len() && (#[trigger] rows[i]).0 == key;
        assert(keep(rows[i].0, rows[i].1));
    }
    assert forall|i: int, j: int| 0 <= i < j < live.len() implies (#[trigger] live[i]).version >= (
    #[trigger] live[j]).version by {
        assert(!<VersionRecord as Ranked>::above(live[j], live[i]));
    }
}

/// A secret is listed as due exactly if its rotation time has come.
pub proof fn law_due_rotations(state: StoreView, now: int, secret: SecretView)
    requires
        state.secrets.dom().finite(),
    ensures
        due_of(state, now).contains(secret) <==> exists|key: Seq<char>| #[trigger]
            state.secrets.contains_key(key) && state.secrets[key] == secret
                && secret.next_rotation_at is Some && secret.next_rotation_at->0 <= now,
{
    let rows = ordered::<String, SecretView>(state.secrets);
    let keep = |key: Seq<char>, s: SecretView|
        s.next_rotation_at is Some && s.next_rotation_at->0 <= now;
    lemma_ordered_exists::<String, SecretView>(state.secrets);
    lemma_values_members(rows, keep, secret);
    if due_of(state, now).contains(secret) {
        let i = choose|i: int|
            0 <= i < rows.len() && keep((#[trigger] rows[i]).0, rows[i].1) && rows[i].1 == secret;
        lemma_ordered_has::<String, SecretView>(state.secrets, rows[i].0);
        assert(state.secrets.contains_key(rows[i].0));
    }
    if exists|key: Seq<char>| #[trigger]
        state.secrets.contains_key(key) && state.secrets[key] == secret
            && secret.next_rotation_at is Some && secret.next_rotation_at->0 <= now {
        let key = choose|key: Seq<char>| #[trigger]
            state.secrets.contains_key(key) && state.secrets[key] == secret
                && secret.next_rotation_at is Some && secret.next_rotation_at->0 <= now;
        lemma_ordered_has::<String, SecretView>(state.secrets, key);
        let i = choose|i: int| 0 <= i < rows.len() && (#[trigger] rows[i]).0 == key;
        assert(keep(rows[i].0, rows[i].1));
    }
}

proof fn lemma_values_distinct(
    rows: Seq<(Seq<char>, SecretView)>,
    keep: spec_fn(Seq<char>, SecretView) -> bool,
)
    requires
        ascending::<String, SecretView>(rows),
        forall|i: int| 0 <= i < rows.len() ==> (#[trigger] rows[i]).1.name == rows[i].0,
    ensures
        forall|i: int, j: int|
            0 <= i < j < values_where(rows, keep).len() ==> (#[trigger] values_where(
                rows,
                keep,
            )[i]).name != (#[trigger] values_where(rows, keep)[j]).name,
    decreases rows.len(),
{
    if rows.len() > 0 {
        let front = rows.drop_last();
        let kept = values_where(front, keep);
        let values = values_where(rows, keep);
        assert forall|i: int| 0 <= i < front.len() implies (#[trigger] front[i]).1.name
            == front[i].0 by {
            assert(front[i] == rows[i]);
        }
        lemma_values_distinct(front, keep);
        assert forall|i: int, j: int| 0 <= i < j < values.len() implies (#[trigger] values[i]).name
            != (#[trigger] values[j]).name by {
            assert(values[i] == kept[i]);
            if j < kept.len() {
                assert(values[j] == kept[j]);
            } else {
                let last = rows.len() - 1;
                lemma_values_members(front, keep, kept[i]);
                let m = choose|m: int|
                    0 <= m < front.len() && keep((#[trigger] front[m]).0, front[m].1) && front[m].1
                        == kept[i];
                assert(<String as Key>::precedes(rows[m].0, rows[last].0));
                <String as Key>::irreflexive(rows[last].0);
                assert(rows[last].1.name == rows[last].0);
            }
        }
    }
}

/// No secret is listed as due twice.
pub proof fn law_due_once(state: StoreView, now: int)
    requires
        state.secrets.dom().finite(),
        keyed_by_name(state),
    ensures
        forall|i: int, j: int|
            0 <= i < j < due_of(state, now).len() ==> (#[trigger] due_of(state, now)[i]).name != (
            #[trigger] due_of(state, now)[j]).name,
{
    let rows = ordered::<String, SecretView>(state.secrets);
    lemma_ordered_exists::<String, SecretView>(state.secrets);
    assert forall|i: int| 0 <= i < rows.len() implies (#[trigger] rows[i]).1.name == rows[i].0 by {
        lemma_ordered_has::<String, SecretView>(state.secrets, rows[i].0);
        assert(state.secrets.contains_key(rows[i].0));
    }
    lemma_values_distinct(
        rows,
        |key: Seq<char>, secret: SecretView|
            secret.next_rotation_at is Some && secret.next_rotation_at->0 <= now,
    );
}

} // verus!
