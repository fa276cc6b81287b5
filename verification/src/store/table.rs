//! An ordered table: rows sorted by key, found by binary search.

use vstd::prelude::*;
use crate::order::{Key, Rank};
use crate::text::clone_bytes;

verus! {

/// The table that results from inserting `rows` one after the other: a later row replaces an
/// earlier one with the same key.
pub open spec fn rows_map<A, B>(rows: Seq<(A, B)>) -> Map<A, B>
    decreases rows.len(),
{
    if rows.len() == 0 {
        Map::empty()
    } else {
        rows_map(rows.drop_last()).insert(rows.last().0, rows.last().1)
    }
}

/// Whether the keys of `rows` strictly increase.
pub open spec fn ascending<K: Key, B>(rows: Seq<(K::V, B)>) -> bool {
    forall|i: int, j: int|
        0 <= i < j < rows.len() ==> K::precedes((#[trigger] rows[i]).0, (#[trigger] rows[j]).0)
}

/// The rows of `table` in ascending order of their keys.
pub open spec fn ordered<K: Key, B>(table: Map<K::V, B>) -> Seq<(K::V, B)> {
    choose|rows: Seq<(K::V, B)>| ascending::<K, B>(rows) && #[trigger] rows_map(rows) == table
}

/// Whether `key` lies in the half-open range from `lower` to `upper`.
pub open spec fn within<K: Key>(key: K::V, lower: K::V, upper: K::V) -> bool {
    !K::precedes(key, lower) && K::precedes(key, upper)
}

/// A key is in the table exactly if some row has it.
pub proof fn lemma_rows_map_dom<A, B>(rows: Seq<(A, B)>, key: A)
    ensures
        rows_map(rows).contains_key(key) <==> exists|i: int|
            0 <= i < rows.len() && (#[trigger] rows[i]).0 == key,
    decreases rows.len(),
{
    if rows.len() > 0 {
        let front = rows.drop_last();
        lemma_rows_map_dom(front, key);
        if rows_map(rows).contains_key(key) {
            if rows.last().0 == key {
                assert(rows[rows.len() - 1].0 == key);
            } else {
                let i = choose|i: int| 0 <= i < front.len() && (#[trigger] front[i]).0 == key;
                assert(rows[i].0 == key);
            }
        }
        if exists|i: int| 0 <= i < rows.len() && (#[trigger] rows[i]).0 == key {
            let i = choose|i: int| 0 <= i < rows.len() && (#[trigger] rows[i]).0 == key;
            if i < front.len() {
                assert(front[i].0 == key);
            }
        }
    }
}

/// In ascending rows every row keeps its value.
pub proof fn lemma_rows_map_value<K: Key, B>(rows: Seq<(K::V, B)>, i: int)
    requires
        ascending::<K, B>(rows),
        0 <= i < rows.len(),
    ensures
        rows_map(rows).contains_key(rows[i].0),
        rows_map(rows)[rows[i].0] == rows[i].1,
    decreases rows.len(),
{
    let front = rows.drop_last();
    if i < front.len() {
        assert(ascending::<K, B>(front)) by {
            assert forall|a: int, b: int| 0 <= a < b < front.len() implies K::precedes(
                (#[trigger] front[a]).0,
                (#[trigger] front[b]).0,
            ) by {
                assert(front[a] == rows[a] && front[b] == rows[b]);
            }
        }
        lemma_rows_map_value::<K, B>(front, i);
        assert(K::precedes(rows[i].0, rows[rows.len() - 1].0));
        K::irreflexive(rows[i].0);
    }
}

/// Dropping the last of ascending rows removes its key from the table.
proof fn lemma_rows_map_front<K: Key, B>(rows: Seq<(K::V, B)>)
    requires
        ascending::<K, B>(rows),
        rows.len() > 0,
    ensures
        ascending::<K, B>(rows.drop_last()),
        rows_map(rows.drop_last()) == rows_map(rows).remove(rows.last().0),
{
    let front = rows.drop_last();
    assert(ascending::<K, B>(front)) by {
        assert forall|a: int, b: int| 0 <= a < b < front.len() implies K::precedes(
            (#[trigger] front[a]).0,
            (#[trigger] front[b]).0,
        ) by {
            assert(front[a] == rows[a] && front[b] == rows[b]);
        }
    }
    lemma_rows_map_dom(front, rows.last().0);
    if rows_map(front).contains_key(rows.last().0) {
        let i = choose|i: int| 0 <= i < front.len() && (#[trigger] front[i]).0 == rows.last().0;
        assert(K::precedes(rows[i].0, rows[rows.len() - 1].0));
        K::irreflexive(rows.last().0);
    }
    assert(rows_map(front) =~= rows_map(rows).remove(rows.last().0));
}

/// A table has only one list of ascending rows.
pub proof fn lemma_ascending_unique<K: Key, B>(a: Seq<(K::V, B)>, b: Seq<(K::V, B)>)
    requires
        ascending::<K, B>(a),
        ascending::<K, B>(b),
        rows_map(a) == rows_map(b),
    ensures
        a == b,
    decreases a.len(),
{
    if a.len() == 0 {
        if b.len() > 0 {
            lemma_rows_map_value::<K, B>(b, 0);
        }
        assert(a =~= b);
    } else if b.len() == 0 {
        lemma_rows_map_value::<K, B>(a, 0);
        assert(a =~= b);
    } else {
        let x = a.last().0;
        let y = b.last().0;
        lemma_rows_map_value::<K, B>(a, a.len() - 1);
        lemma_rows_map_value::<K, B>(b, b.len() - 1);
        lemma_rows_map_dom(a, y);
        lemma_rows_map_dom(b, x);
        let i = choose|i: int| 0 <= i < a.len() && (#[trigger] a[i]).0 == y;
        let j = choose|j: int| 0 <= j < b.len() && (#[trigger] b[j]).0 == x;
        if x != y {
            assert(K::precedes(a[i].0, a[a.len() - 1].0));
            assert(K::precedes(b[j].0, b[b.len() - 1].0));
            K::transitive(x, y, x);
            K::irreflexive(x);
        }
        lemma_rows_map_front::<K, B>(a);
        lemma_rows_map_front::<K, B>(b);
        lemma_ascending_unique::<K, B>(a.drop_last(), b.drop_last());
        assert(a =~= a.drop_last().push(a.last()));
        assert(b =~= b.drop_last().push(b.last()));
    }
}

/// Ascending rows are the ordered rows of the table that they make up.
pub proof fn lemma_ordered<K: Key, B>(rows: Seq<(K::V, B)>)
    requires
        ascending::<K, B>(rows),
    ensures
        ordered::<K, B>(rows_map(rows)) == rows,
{
    lemma_ascending_unique::<K, B>(ordered::<K, B>(rows_map(rows)), rows);
}

/// A table of ascending rows has as many keys as rows.
pub proof fn lemma_rows_map_len<K: Key, B>(rows: Seq<(K::V, B)>)
    requires
        ascending::<K, B>(rows),
    ensures
        rows_map(rows).dom().finite(),
        rows_map(rows).dom().len() == rows.len(),
    decreases rows.len(),
{
    if rows.len() > 0 {
        lemma_rows_map_front::<K, B>(rows);
        lemma_rows_map_len::<K, B>(rows.drop_last());
        assert(rows_map(rows).dom() =~= rows_map(rows.drop_last()).dom().insert(rows.last().0));
    } else {
        assert(rows_map(rows).dom() =~= Set::empty());
    }
}

/// Every row of a table is among its ordered rows.
pub proof fn lemma_ordered_has<K: Key, B>(table: Map<K::V, B>, key: K::V)
    requires
        ascending::<K, B>(ordered::<K, B>(table)),
        rows_map(ordered::<K, B>(table)) == table,
    ensures
        table.contains_key(key) <==> exists|i: int|
            0 <= i < ordered::<K, B>(table).len() && (#[trigger] ordered::<K, B>(table)[i]).0
                == key,
        forall|i: int|
            0 <= i < ordered::<K, B>(table).len() && (#[trigger] ordered::<K, B>(table)[i]).0
                == key ==> ordered::<K, B>(table)[i].1 == table[key],
{
    let rows = ordered::<K, B>(table);
    lemma_rows_map_dom(rows, key);
    assert forall|i: int| 0 <= i < rows.len() && (#[trigger] rows[i]).0 == key implies rows[i].1
        == table[key] by {
        lemma_rows_map_value::<K, B>(rows, i);
    }
}

/// The place of an absent key among ascending rows.
proof fn lemma_place<K: Key, B>(rows: Seq<(K::V, B)>, key: K::V) -> (at: int)
    requires
        ascending::<K, B>(rows),
        !rows_map(rows).contains_key(key),
    ensures
        0 <= at <= rows.len(),
        forall|j: int| 0 <= j < at ==> K::precedes((#[trigger] rows[j]).0, key),
        forall|j: int| at <= j < rows.len() ==> K::precedes(key, (#[trigger] rows[j]).0),
    decreases rows.len(),
{
    if rows.len() == 0 {
        0
    } else {
        let last = rows.last().0;
        lemma_rows_map_value::<K, B>(rows, rows.len() - 1);
        K::total(last, key);
        if K::precedes(last, key) {
            assert forall|j: int| 0 <= j < rows.len() implies K::precedes(
                (#[trigger] rows[j]).0,
                key,
            ) by {
                if j < rows.len() - 1 {
                    assert(K::precedes(rows[j].0, rows[rows.len() - 1].0));
                    K::transitive(rows[j].0, last, key);
                }
            }
            rows.len() as int
        } else {
            lemma_rows_map_front::<K, B>(rows);
            let front = rows.drop_last();
            let at = lemma_place::<K, B>(front, key);
            assert forall|j: int| 0 <= j < at implies K::precedes((#[trigger] rows[j]).0, key) by {
                assert(rows[j] == front[j]);
            }
            assert forall|j: int| at <= j < rows.len() implies K::precedes(
                key,
                (#[trigger] rows[j]).0,
            ) by {
                if j < front.len() {
                    assert(rows[j] == front[j]);
                }
            }
            at
        }
    }
}

/// Every finite table has its ordered rows.
pub proof fn lemma_ordered_exists<K: Key, B>(table: Map<K::V, B>)
    requires
        table.dom().finite(),
    ensures
        ascending::<K, B>(ordered::<K, B>(table)),
        rows_map(ordered::<K, B>(table)) == table,
    decreases table.dom().len(),
{
    if table.dom().len() == 0 {
        let none = Seq::<(K::V, B)>::empty();
        assert(table.dom() =~= Set::empty());
        assert(rows_map(none) =~= table);
        assert(ascending::<K, B>(none));
    } else {
        let key = table.dom().choose();
        let rest = table.remove(key);
        assert(rest.dom() =~= table.dom().remove(key));
        lemma_ordered_exists::<K, B>(rest);
        let rows = ordered::<K, B>(rest);
        let at = lemma_place::<K, B>(rows, key);
        lemma_insert::<K, B>(rows, at, key, table[key]);
        assert(rest.insert(key, table[key]) =~= table);
        assert(rows_map(rows.insert(at, (key, table[key]))) == table);
    }
}

/// A type whose values can be copied without loss.
pub trait Duplicate: View + Sized {
    fn duplicate(&self) -> (r: Self)
        ensures
            r@ == self@,
    ;
}

impl Duplicate for String {
    fn duplicate(&self) -> (r: String) {
        self.clone()
    }
}

impl Duplicate for Vec<u8> {
    fn duplicate(&self) -> (r: Vec<u8>) {
        clone_bytes(self.as_slice())
    }
}

impl Duplicate for u64 {
    fn duplicate(&self) -> (r: u64) {
        *self
    }
}

/// The rows of a list of pairs, each by its view.
pub open spec fn pair_views<K: View, V: View>(rows: Seq<(K, V)>) -> Seq<(K::V, V::V)> {
    Seq::new(rows.len(), |i: int| (rows[i].0@, rows[i].1@))
}

/// A copy of all rows, in ascending order of their keys.
pub fn dump_table<K: Key + Duplicate, V: Duplicate>(table: &Table<K, V>) -> (r: Vec<(K, V)>)
    ensures
        pair_views(r@) == ordered::<K, V::V>(table@),
{
    let count = table.len();
    let ghost rows = ordered::<K, V::V>(table@);
    let mut out: Vec<(K, V)> = Vec::new();
    let mut i: usize = 0;
    while i < count
        invariant
            i <= count == rows.len(),
            rows == ordered::<K, V::V>(table@),
            pair_views(out@) == rows.take(i as int),
        decreases count - i,
    {
        let row = table.row(i);
        let ghost before = out@;
        out.push((row.key.duplicate(), row.value.duplicate()));
        assert(pair_views(out@) =~= pair_views(before).push(rows[i as int]));
        assert(rows.take(i as int + 1) =~= rows.take(i as int).push(rows[i as int]));
        i = i + 1;
    }
    assert(rows.take(i as int) =~= rows);
    out
}

/// The table made of the given rows; a later row replaces an earlier one with the same key.
pub fn load_table<K: Key + Duplicate, V: Duplicate>(rows: &Vec<(K, V)>) -> (r: Table<K, V>)
    ensures
        r@ == rows_map(pair_views(rows@)),
{
    let ghost all = pair_views(rows@);
    let mut table: Table<K, V> = Table::new();
    let mut i: usize = 0;
    assert(rows_map(all.take(0)) =~= Map::empty());
    while i < rows.len()
        invariant
            i <= rows@.len() == all.len(),
            all == pair_views(rows@),
            table@ == rows_map(all.take(i as int)),
        decreases rows@.len() - i,
    {
        assert(all.take(i as int + 1).drop_last() =~= all.take(i as int));
        table.insert(rows[i].0.duplicate(), rows[i].1.duplicate());
        i = i + 1;
    }
    assert(all.take(i as int) =~= all);
    table
}

/// A row of a table.
pub struct Row<K, V> {
    pub key: K,
    pub value: V,
}

/// Rows sorted by key, each key at most once.
pub struct Table<K: Key, V: View> {
    rows: Vec<Row<K, V>>,
}

/// The rows of a list, each by its view.
pub open spec fn row_views<K: View, V: View>(rows: Seq<Row<K, V>>) -> Seq<(K::V, V::V)> {
    Seq::new(rows.len(), |i: int| (rows[i].key@, rows[i].value@))
}

impl<K: Key, V: View> View for Table<K, V> {
    type V = Map<K::V, V::V>;

    closed spec fn view(&self) -> Map<K::V, V::V> {
        rows_map(row_views(self.rows@))
    }
}

impl<K: Key, V: View> Table<K, V> {
    #[verifier::type_invariant]
    spec fn sorted(self) -> bool {
        ascending::<K, V::V>(row_views(self.rows@))
    }

    /// An empty table.
    pub fn new() -> (r: Self)
        ensures
            r@ == Map::<K::V, V::V>::empty(),
    {
        Table { rows: Vec::new() }
    }

    /// The number of rows.
    pub fn len(&self) -> (r: usize)
        ensures
            r == ordered::<K, V::V>(self@).len(),
            self@.dom().finite(),
            r == self@.dom().len(),
            ascending::<K, V::V>(ordered::<K, V::V>(self@)),
            rows_map(ordered::<K, V::V>(self@)) == self@,
    {
        proof {
            use_type_invariant(self);
            lemma_ordered::<K, V::V>(row_views(self.rows@));
            lemma_rows_map_len::<K, V::V>(row_views(self.rows@));
        }
        self.rows.len()
    }

    /// The position of the first row whose key is not before `key`, and whether that row has it.
    fn locate(&self, key: &K) -> (r: (usize, bool))
        ensures
            ({
                let rows = row_views(self.rows@);
                &&& r.0 <= rows.len()
                &&& forall|j: int| 0 <= j < r.0 ==> K::precedes((#[trigger] rows[j]).0, key@)
                &&& r.1 ==> r.0 < rows.len() && rows[r.0 as int].0 == key@
                &&& !r.1 ==> forall|j: int|
                    r.0 <= j < rows.len() ==> K::precedes(key@, (#[trigger] rows[j]).0)
            }),
    {
        proof {
            use_type_invariant(self);
        }
        let ghost rows = row_views(self.rows@);
        let mut lo: usize = 0;
        let mut hi: usize = self.rows.len();
        while lo < hi
            invariant
                rows == row_views(self.rows@),
                ascending::<K, V::V>(rows),
                lo <= hi <= rows.len(),
                forall|j: int| 0 <= j < lo ==> K::precedes((#[trigger] rows[j]).0, key@),
                forall|j: int| hi <= j < rows.len() ==> K::precedes(key@, (#[trigger] rows[j]).0),
            decreases hi - lo,
        {
            let mid: usize = lo + (hi - lo) / 2;
            assert(rows[mid as int].0 == self.rows@[mid as int].key@);
            match self.rows[mid].key.order(key) {
                Rank::Before => {
                    assert forall|j: int| 0 <= j < mid + 1 implies K::precedes(
                        (#[trigger] rows[j]).0,
                        key@,
                    ) by {
                        if j < mid {
                            assert(K::precedes(rows[j].0, rows[mid as int].0));
                            K::transitive(rows[j].0, rows[mid as int].0, key@);
                        }
                    }
                    lo = mid + 1;
                },
                Rank::Same => {
                    assert forall|j: int| 0 <= j < mid implies K::precedes(
                        (#[trigger] rows[j]).0,
                        key@,
                    ) by {
                        assert(K::precedes(rows[j].0, rows[mid as int].0));
                    }
                    return (mid, true);
                },
                Rank::After => {
                    assert forall|j: int| mid <= j < rows.len() implies K::precedes(
                        key@,
                        (#[trigger] rows[j]).0,
                    ) by {
                        if mid < j {
                            assert(K::precedes(rows[mid as int].0, rows[j].0));
                            K::transitive(key@, rows[mid as int].0, rows[j].0);
                        }
                    }
                    hi = mid;
                },
            }
        }
        (lo, false)
    }

    /// The value stored under `key`.
    pub fn get(&self, key: &K) -> (r: Option<&V>)
        ensures
            match r {
                Some(value) => self@.contains_key(key@) && self@[key@] == value@,
                None => !self@.contains_key(key@),
            },
    {
        let (at, found) = self.locate(key);
        let ghost rows = row_views(self.rows@);
        proof {
            use_type_invariant(self);
        }
        if found {
            proof {
                lemma_rows_map_value::<K, V::V>(rows, at as int);
            }
            Some(&self.rows[at].value)
        } else {
            proof {
                lemma_absent::<K, V::V>(rows, at as int, key@);
            }
            None
        }
    }

    /// Whether a row has `key`.
    pub fn contains(&self, key: &K) -> (r: bool)
        ensures
            r == self@.contains_key(key@),
    {
        self.get(key).is_some()
    }

    /// Stores `value` under `key`, in place of what was there.
    pub fn insert(&mut self, key: K, value: V)
        ensures
            final(self)@ == old(self)@.insert(key@, value@),
    {
        let (at, found) = self.locate(&key);
        let ghost before = row_views(self.rows@);
        proof {
            use_type_invariant(&*self);
        }
        let mut rows: Vec<Row<K, V>> = Vec::new();
        std::mem::swap(&mut rows, &mut self.rows);
        let ghost k = key@;
        let ghost v = value@;
        if found {
            rows.set(at, Row { key, value });
            proof {
                let after = row_views(rows@);
                assert(after =~= before.update(at as int, (k, v)));
                lemma_replace::<K, V::V>(before, at as int, v);
            }
        } else {
            rows.insert(at, Row { key, value });
            proof {
                let after = row_views(rows@);
                assert(after =~= before.insert(at as int, (k, v)));
                lemma_insert::<K, V::V>(before, at as int, k, v);
            }
        }
        self.rows = rows;
    }

    /// Removes the row with `key`; tells whether there was one.
    pub fn remove(&mut self, key: &K) -> (r: bool)
        ensures
            r == old(self)@.contains_key(key@),
            final(self)@ == old(self)@.remove(key@),
    {
        let (at, found) = self.locate(key);
        let ghost before = row_views(self.rows@);
        proof {
            use_type_invariant(&*self);
        }
        if found {
            let mut rows: Vec<Row<K, V>> = Vec::new();
            std::mem::swap(&mut rows, &mut self.rows);
            rows.remove(at);
            proof {
                let after = row_views(rows@);
                assert(after =~= before.remove(at as int));
                lemma_rows_map_value::<K, V::V>(before, at as int);
                lemma_remove::<K, V::V>(before, at as int);
            }
            self.rows = rows;
            true
        } else {
            proof {
                lemma_absent::<K, V::V>(before, at as int, key@);
                assert(self@.remove(key@) =~= self@);
            }
            false
        }
    }

    /// The row at position `i` in ascending order of keys.
    pub fn row(&self, i: usize) -> (r: &Row<K, V>)
        requires
            i < ordered::<K, V::V>(self@).len(),
        ensures
            (r.key@, r.value@) == ordered::<K, V::V>(self@)[i as int],
            self@.contains_key(r.key@),
            self@[r.key@] == r.value@,
    {
        proof {
            use_type_invariant(self);
            lemma_ordered::<K, V::V>(row_views(self.rows@));
            lemma_rows_map_value::<K, V::V>(row_views(self.rows@), i as int);
        }
        &self.rows[i]
    }

    /// The positions of the rows from `lower` up to, but not including, `upper`.
    pub fn range(&self, lower: &K, upper: &K) -> (r: (usize, usize))
        ensures
            ({
                let rows = ordered::<K, V::V>(self@);
                &&& r.0 <= r.1 <= rows.len()
                &&& forall|i: int|
                    0 <= i < rows.len() ==> (r.0 <= i < r.1 <==> within::<K>(
                        (#[trigger] rows[i]).0,
                        lower@,
                        upper@,
                    ))
            }),
    {
        let (from, a) = self.locate(lower);
        let (to, b) = self.locate(upper);
        let ghost rows = row_views(self.rows@);
        proof {
            use_type_invariant(self);
            lemma_ordered::<K, V::V>(rows);
            assert forall|i: int| 0 <= i < rows.len() implies (from <= i <==> !K::precedes(
                (#[trigger] rows[i]).0,
                lower@,
            )) by {
                if from <= i {
                    if a {
                        if from < i {
                            assert(K::precedes(rows[from as int].0, rows[i].0));
                        }
                    }
                    if K::precedes(rows[i].0, lower@) {
                        if rows[i].0 != lower@ {
                            K::transitive(lower@, rows[i].0, lower@);
                        }
                        K::irreflexive(lower@);
                    }
                }
            }
            assert forall|i: int| 0 <= i < rows.len() implies (i < to <==> K::precedes(
                (#[trigger] rows[i]).0,
                upper@,
            )) by {
                if to <= i {
                    if b {
                        if to < i {
                            assert(K::precedes(rows[to as int].0, rows[i].0));
                        }
                    }
                    if K::precedes(rows[i].0, upper@) {
                        if rows[i].0 != upper@ {
                            K::transitive(upper@, rows[i].0, upper@);
                        }
                        K::irreflexive(upper@);
                    }
                }
            }
        }
        if from <= to {
            (from, to)
        } else {
            (from, from)
        }
    }
}

proof fn lemma_absent<K: Key, B>(rows: Seq<(K::V, B)>, at: int, key: K::V)
    requires
        0 <= at <= rows.len(),
        forall|j: int| 0 <= j < at ==> K::precedes((#[trigger] rows[j]).0, key),
        forall|j: int| at <= j < rows.len() ==> K::precedes(key, (#[trigger] rows[j]).0),
    ensures
        !rows_map(rows).contains_key(key),
{
    lemma_rows_map_dom(rows, key);
    K::irreflexive(key);
}

proof fn lemma_replace<K: Key, B>(rows: Seq<(K::V, B)>, at: int, value: B)
    requires
        ascending::<K, B>(rows),
        0 <= at < rows.len(),
    ensures
        ascending::<K, B>(rows.update(at, (rows[at].0, value))),
        rows_map(rows.update(at, (rows[at].0, value))) == rows_map(rows).insert(rows[at].0, value),
{
    let after = rows.update(at, (rows[at].0, value));
    assert(ascending::<K, B>(after)) by {
        assert forall|i: int, j: int| 0 <= i < j < after.len() implies K::precedes(
            (#[trigger] after[i]).0,
            (#[trigger] after[j]).0,
        ) by {
            assert(after[i].0 == rows[i].0 && after[j].0 == rows[j].0);
        }
    }
    let goal = rows_map(rows).insert(rows[at].0, value);
    assert forall|k: K::V| rows_map(after).contains_key(k) == goal.contains_key(k) by {
        lemma_rows_map_dom(rows, k);
        lemma_rows_map_dom(after, k);
        if goal.contains_key(k) {
            if k == rows[at].0 {
                assert(after[at].0 == k);
            } else {
                let i = choose|i: int| 0 <= i < rows.len() && (#[trigger] rows[i]).0 == k;
                assert(after[i].0 == k);
            }
        }
        if rows_map(after).contains_key(k) {
            let i = choose|i: int| 0 <= i < after.len() && (#[trigger] after[i]).0 == k;
            assert(rows[i].0 == k);
        }
    }
    assert forall|k: K::V| rows_map(after).contains_key(k) implies rows_map(after)[k]
        == goal[k] by {
        lemma_rows_map_dom(after, k);
        let i = choose|i: int| 0 <= i < after.len() && (#[trigger] after[i]).0 == k;
        lemma_rows_map_value::<K, B>(after, i);
        lemma_rows_map_value::<K, B>(rows, i);
        if i != at && k == rows[at].0 {
            lemma_rows_map_value::<K, B>(rows, at);
            K::irreflexive(k);
            if i < at {
                assert(K::precedes(rows[i].0, rows[at].0));
            } else {
                assert(K::precedes(rows[at].0, rows[i].0));
            }
        }
    }
    assert(rows_map(after) =~= goal);
}

proof fn lemma_insert<K: Key, B>(rows: Seq<(K::V, B)>, at: int, key: K::V, value: B)
    requires
        ascending::<K, B>(rows),
        0 <= at <= rows.len(),
        forall|j: int| 0 <= j < at ==> K::precedes((#[trigger] rows[j]).0, key),
        forall|j: int| at <= j < rows.len() ==> K::precedes(key, (#[trigger] rows[j]).0),
    ensures
        ascending::<K, B>(rows.insert(at, (key, value))),
        rows_map(rows.insert(at, (key, value))) == rows_map(rows).insert(key, value),
{
    let after = rows.insert(at, (key, value));
    assert(ascending::<K, B>(after)) by {
        assert forall|i: int, j: int| 0 <= i < j < after.len() implies K::precedes(
            (#[trigger] after[i]).0,
            (#[trigger] after[j]).0,
        ) by {
            let x = if i < at { i } else { i - 1 };
            let y = if j < at { j } else { j - 1 };
            if i != at && j != at {
                assert(after[i] == rows[x] && after[j] == rows[y]);
            } else if i == at {
                assert(after[j] == rows[y]);
            } else {
                assert(after[i] == rows[x]);
            }
        }
    }
    let goal = rows_map(rows).insert(key, value);
    assert forall|k: K::V| rows_map(after).contains_key(k) == goal.contains_key(k) by {
        lemma_rows_map_dom(rows, k);
        lemma_rows_map_dom(after, k);
        if goal.contains_key(k) {
            if k == key {
                assert(after[at].0 == k);
            } else {
                let i = choose|i: int| 0 <= i < rows.len() && (#[trigger] rows[i]).0 == k;
                assert(after[if i < at { i } else { i + 1 }].0 == k);
            }
        }
        if rows_map(after).contains_key(k) && k != key {
            let i = choose|i: int| 0 <= i < after.len() && (#[trigger] after[i]).0 == k;
            assert(rows[if i < at { i } else { i - 1 }].0 == k);
        }
    }
    assert forall|k: K::V| rows_map(after).contains_key(k) implies rows_map(after)[k]
        == goal[k] by {
        lemma_rows_map_dom(after, k);
        let i = choose|i: int| 0 <= i < after.len() && (#[trigger] after[i]).0 == k;
        lemma_rows_map_value::<K, B>(after, i);
        if i != at {
            let x = if i < at { i } else { i - 1 };
            assert(after[i] == rows[x]);
            lemma_rows_map_value::<K, B>(rows, x);
            K::irreflexive(key);
        }
    }
    assert(rows_map(after) =~= goal);
}

proof fn lemma_remove<K: Key, B>(rows: Seq<(K::V, B)>, at: int)
    requires
        ascending::<K, B>(rows),
        0 <= at < rows.len(),
    ensures
        ascending::<K, B>(rows.remove(at)),
        rows_map(rows.remove(at)) == rows_map(rows).remove(rows[at].0),
{
    let after = rows.remove(at);
    let key = rows[at].0;
    assert(ascending::<K, B>(after)) by {
        assert forall|i: int, j: int| 0 <= i < j < after.len() implies K::precedes(
            (#[trigger] after[i]).0,
            (#[trigger] after[j]).0,
        ) by {
            let x = if i < at { i } else { i + 1 };
            let y = if j < at { j } else { j + 1 };
            assert(after[i] == rows[x] && after[j] == rows[y]);
        }
    }
    let goal = rows_map(rows).remove(key);
    assert forall|k: K::V| rows_map(after).contains_key(k) == goal.contains_key(k) by {
        lemma_rows_map_dom(rows, k);
        lemma_rows_map_dom(after, k);
        if goal.contains_key(k) {
            let i = choose|i: int| 0 <= i < rows.len() && (#[trigger] rows[i]).0 == k;
            assert(after[if i < at { i } else { i - 1 }].0 == k);
        }
        if rows_map(after).contains_key(k) {
            let i = choose|i: int| 0 <= i < after.len() && (#[trigger] after[i]).0 == k;
            let x = if i < at { i } else { i + 1 };
            assert(rows[x].0 == k);
            if k == key {
                K::irreflexive(key);
                if x < at {
                    assert(K::precedes(rows[x].0, rows[at].0));
                } else {
                    assert(K::precedes(rows[at].0, rows[x].0));
                }
            }
        }
    }
    assert forall|k: K::V| rows_map(after).contains_key(k) implies rows_map(after)[k]
        == goal[k] by {
        lemma_rows_map_dom(after, k);
        assert(goal.contains_key(k));
        let i = choose|i: int| 0 <= i < after.len() && (#[trigger] after[i]).0 == k;
        lemma_rows_map_value::<K, B>(after, i);
        let x = if i < at { i } else { i + 1 };
        assert(after[i] == rows[x]);
        lemma_rows_map_value::<K, B>(rows, x);
    }
    assert(rows_map(after) =~= goal);
}

} // verus!
