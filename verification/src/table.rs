//! A table of values found by key, with no key twice, in the order in which
//! the keys first came.

use vstd::prelude::*;

use crate::text::same_text;

verus! {

/// The position of the row for `k`, or -1.
pub open spec fn row_of<A, B>(s: Seq<(A, B)>, k: A) -> int
    decreases s.len(),
{
    if s.len() == 0 {
        -1
    } else if s.last().0 == k {
        s.len() - 1
    } else {
        row_of(s.drop_last(), k)
    }
}

/// The value for `k`.
pub open spec fn lookup<A, B>(s: Seq<(A, B)>, k: A) -> Option<B> {
    let i = row_of(s, k);
    if i < 0 {
        None
    } else {
        Some(s[i].1)
    }
}

/// Whether there is a value for `k`.
pub open spec fn has_key<A, B>(s: Seq<(A, B)>, k: A) -> bool {
    row_of(s, k) >= 0
}

/// `s` with `v` for `k`, in the place of the value that was there.
pub open spec fn put<A, B>(s: Seq<(A, B)>, k: A, v: B) -> Seq<(A, B)> {
    let i = row_of(s, k);
    if i < 0 {
        s.push((k, v))
    } else {
        s.update(i, (k, v))
    }
}

/// `s` with nothing for `k`.
pub open spec fn without<A, B>(s: Seq<(A, B)>, k: A) -> Seq<(A, B)> {
    let i = row_of(s, k);
    if i < 0 {
        s
    } else {
        s.remove(i)
    }
}

/// No key stands in two rows.
pub open spec fn distinct<A, B>(s: Seq<(A, B)>) -> bool {
    forall|i: int, j: int|
        0 <= i < s.len() && 0 <= j < s.len() && (#[trigger] s[i]).0 == (#[trigger] s[j]).0 ==> i
            == j
}

/// The values, in order.
pub open spec fn values<A, B>(s: Seq<(A, B)>) -> Seq<B> {
    Seq::new(s.len(), |i: int| s[i].1)
}

/// What `row_of` says, told by positions.
pub proof fn row_of_is_row<A, B>(s: Seq<(A, B)>, k: A)
    ensures
        -1 <= row_of(s, k) < s.len(),
        row_of(s, k) >= 0 ==> s[row_of(s, k)].0 == k,
        row_of(s, k) < 0 ==> forall|i: int| 0 <= i < s.len() ==> (#[trigger] s[i]).0 != k,
    decreases s.len(),
{
    if s.len() > 0 && s.last().0 != k {
        row_of_is_row(s.drop_last(), k);
        if row_of(s, k) < 0 {
            assert forall|i: int| 0 <= i < s.len() implies (#[trigger] s[i]).0 != k by {
                if i < s.len() - 1 {
                    assert(s.drop_last()[i] == s[i]);
                }
            }
        }
    }
}

/// Where a key stands, when it stands in one row.
pub proof fn row_is<A, B>(s: Seq<(A, B)>, k: A, i: int)
    requires
        distinct(s),
        0 <= i < s.len(),
        s[i].0 == k,
    ensures
        row_of(s, k) == i,
{
    row_of_is_row(s, k);
    if row_of(s, k) < 0 {
        assert(s[i].0 != k);
    } else {
        assert(s[row_of(s, k)].0 == s[i].0);
    }
}

/// Putting a value in keeps the keys distinct; the key is then found with that
/// value, and every other key as before.
pub proof fn put_is_found<A, B>(s: Seq<(A, B)>, k: A, v: B)
    requires
        distinct(s),
    ensures
        distinct(put(s, k, v)),
        lookup(put(s, k, v), k) == Some(v),
        forall|o: A| o != k ==> #[trigger] lookup(put(s, k, v), o) == lookup(s, o),
{
    let t = put(s, k, v);
    row_of_is_row(s, k);
    let at = row_of(s, k);
    assert forall|i: int, j: int|
        0 <= i < t.len() && 0 <= j < t.len() && (#[trigger] t[i]).0 == (#[trigger] t[j]).0 implies i
        == j by {
        if at < 0 {
            if i < s.len() && j < s.len() {
                assert(s[i].0 == s[j].0);
            } else if i < s.len() {
                assert(s[i].0 != k);
            } else if j < s.len() {
                assert(s[j].0 != k);
            }
        } else {
            assert(s[i].0 == t[i].0);
            assert(s[j].0 == t[j].0);
        }
    }
    row_is(t, k, if at < 0 { s.len() as int } else { at });
    assert forall|o: A| o != k implies #[trigger] lookup(t, o) == lookup(s, o) by {
        row_of_is_row(s, o);
        row_of_is_row(t, o);
        let p = row_of(s, o);
        let q = row_of(t, o);
        if p >= 0 {
            assert(t[p] == s[p]);
            row_is(t, o, p);
        } else if q >= 0 {
            if q < s.len() {
                assert(s[q].0 == o);
            }
        }
    }
}

/// No key stands in two rows once some of the rows are gone, and those that
/// are left are rows that were there.
pub proof fn filter_distinct<A, B>(s: Seq<(A, B)>, keep: spec_fn((A, B)) -> bool)
    requires
        distinct(s),
    ensures
        distinct(s.filter(keep)),
        forall|i: int| 0 <= i < s.filter(keep).len() ==> s.contains(#[trigger] s.filter(keep)[i]),
    decreases s.len(),
{
    reveal(Seq::filter);
    if s.len() > 0 {
        let t = s.drop_last();
        assert forall|i: int, j: int|
            0 <= i < t.len() && 0 <= j < t.len() && (#[trigger] t[i]).0 == (
            #[trigger] t[j]).0 implies i == j by {
            assert(s[i].0 == s[j].0);
        }
        filter_distinct(t, keep);
        let f = t.filter(keep);
        let g = s.filter(keep);
        assert forall|i: int| 0 <= i < g.len() implies s.contains(#[trigger] g[i]) by {
            if i < f.len() {
                assert(t.contains(f[i]));
                let j = choose|j: int| 0 <= j < t.len() && t[j] == f[i];
                assert(s[j] == g[i]);
            } else {
                assert(s[s.len() - 1] == g[i]);
            }
        }
        assert forall|i: int, j: int|
            0 <= i < g.len() && 0 <= j < g.len() && (#[trigger] g[i]).0 == (
            #[trigger] g[j]).0 implies i == j by {
            if i < f.len() && j < f.len() {
                assert(f[i].0 == f[j].0);
            } else if i < f.len() {
                assert(t.contains(f[i]));
                let k = choose|k: int| 0 <= k < t.len() && t[k] == f[i];
                assert(s[k].0 == s[s.len() - 1].0);
            } else if j < f.len() {
                assert(t.contains(f[j]));
                let k = choose|k: int| 0 <= k < t.len() && t[k] == f[j];
                assert(s[k].0 == s[s.len() - 1].0);
            }
        }
    }
}

/// What a table says of a key is what stands in the one row of that key.
pub proof fn lookup_is_row<A, B>(s: Seq<(A, B)>, k: A, v: B)
    requires
        distinct(s),
    ensures
        lookup(s, k) == Some(v) <==> s.contains((k, v)),
        has_key(s, k) <==> lookup(s, k) is Some,
{
    row_of_is_row(s, k);
    if lookup(s, k) == Some(v) {
        assert(s[row_of(s, k)] == (k, v));
    }
    if s.contains((k, v)) {
        let i = choose|i: int| 0 <= i < s.len() && s[i] == (k, v);
        row_is(s, k, i);
    }
}

/// What a list with one more member holds.
pub proof fn push_contains<A>(s: Seq<A>, last: A, row: A)
    ensures
        s.push(last).contains(row) <==> s.contains(row) || row == last,
{
    let t = s.push(last);
    if s.contains(row) {
        let i = choose|i: int| 0 <= i < s.len() && s[i] == row;
        assert(t[i] == row);
    }
    if t.contains(row) {
        let i = choose|i: int| 0 <= i < t.len() && t[i] == row;
        if i < s.len() {
            assert(s[i] == row);
        }
    }
    assert(t[s.len() as int] == last);
}

/// The rows that are left of a table once some are gone are those that stay:
/// all of them, and no other.
pub proof fn filter_contains<A>(s: Seq<A>, keep: spec_fn(A) -> bool, row: A)
    ensures
        s.filter(keep).contains(row) <==> s.contains(row) && keep(row),
    decreases s.len(),
{
    reveal(Seq::filter);
    if s.len() > 0 {
        let t = s.drop_last();
        let f = t.filter(keep);
        let g = s.filter(keep);
        filter_contains(t, keep, row);
        if g.contains(row) {
            let i = choose|i: int| 0 <= i < g.len() && g[i] == row;
            if i < f.len() {
                assert(f[i] == row);
                let j = choose|j: int| 0 <= j < t.len() && t[j] == row;
                assert(s[j] == row);
            } else {
                assert(s[s.len() - 1] == row);
            }
        }
        if s.contains(row) && keep(row) {
            let j = choose|j: int| 0 <= j < s.len() && s[j] == row;
            if j < t.len() {
                assert(t[j] == row);
                let i = choose|i: int| 0 <= i < f.len() && f[i] == row;
                assert(g[i] == row);
            } else {
                assert(g[g.len() - 1] == row);
            }
        }
    }
}

/// What is found in a table once some of its rows are gone.
pub proof fn filter_lookup<A, B>(s: Seq<(A, B)>, keep: spec_fn((A, B)) -> bool, k: A)
    requires
        distinct(s),
    ensures
        lookup(s.filter(keep), k) == match lookup(s, k) {
            Some(v) if keep((k, v)) => Some(v),
            _ => None,
        },
        distinct(s.filter(keep)),
{
    let f = s.filter(keep);
    filter_distinct(s, keep);
    row_of_is_row(s, k);
    row_of_is_row(f, k);
    if let Some(v) = lookup(f, k) {
        lookup_is_row(f, k, v);
        filter_contains(s, keep, (k, v));
        lookup_is_row(s, k, v);
    }
    if let Some(v) = lookup(s, k) {
        lookup_is_row(s, k, v);
        filter_contains(s, keep, (k, v));
        lookup_is_row(f, k, v);
    }
}

/// Taking a key out keeps the keys distinct; the key is then gone, and every
/// other key is found as before.
pub proof fn without_is_gone<A, B>(s: Seq<(A, B)>, k: A)
    requires
        distinct(s),
    ensures
        distinct(without(s, k)),
        !has_key(without(s, k), k),
        forall|o: A| o != k ==> #[trigger] lookup(without(s, k), o) == lookup(s, o),
{
    let t = without(s, k);
    row_of_is_row(s, k);
    row_of_is_row(t, k);
    let at = row_of(s, k);
    if at >= 0 {
        assert forall|i: int, j: int|
            0 <= i < t.len() && 0 <= j < t.len() && (#[trigger] t[i]).0 == (
            #[trigger] t[j]).0 implies i == j by {
            let a = if i < at { i } else { i + 1 };
            let b = if j < at { j } else { j + 1 };
            assert(s[a] == t[i]);
            assert(s[b] == t[j]);
        }
        if has_key(t, k) {
            let i = row_of(t, k);
            let a = if i < at { i } else { i + 1 };
            assert(s[a] == t[i]);
            assert(s[a].0 == s[at].0);
        }
        assert forall|o: A| o != k implies #[trigger] lookup(t, o) == lookup(s, o) by {
            row_of_is_row(s, o);
            row_of_is_row(t, o);
            let p = row_of(s, o);
            let q = row_of(t, o);
            if p >= 0 {
                let r = if p < at { p } else { p - 1 };
                assert(t[r] == s[p]);
                row_is(t, o, r);
            } else if q >= 0 {
                let a = if q < at { q } else { q + 1 };
                assert(s[a] == t[q]);
            }
        }
    }
}

/// A type whose values are told apart by what they stand for.
pub trait Key: View + Sized {
    fn same(&self, other: &Self) -> (r: bool)
        ensures
            r == (self@ == other@),
    ;
}

impl Key for String {
    fn same(&self, other: &Self) -> (r: bool) {
        same_text(self, other)
    }
}

impl Key for [u8; 16] {
    fn same(&self, other: &Self) -> (r: bool) {
        let mut i: usize = 0;
        while i < 16
            invariant
                i <= 16,
                forall|j: int| 0 <= j < i ==> self@[j] == other@[j],
            decreases 16 - i,
        {
            if self[i] != other[i] {
                return false;
            }
            i += 1;
        }
        assert(self@ =~= other@);
        true
    }
}

pub struct Table<K, V> {
    rows: Vec<(K, V)>,
}

impl<K: View, V: View> View for Table<K, V> {
    type V = Seq<(K::V, V::V)>;

    closed spec fn view(&self) -> Seq<(K::V, V::V)> {
        Seq::new(self.rows@.len(), |i: int| (self.rows@[i].0@, self.rows@[i].1@))
    }
}

impl<K: Key, V: View> Table<K, V> {
    pub fn new() -> (r: Self)
        ensures
            r@ == Seq::<(K::V, V::V)>::empty(),
    {
        let r = Table { rows: Vec::new() };
        assert(r@ =~= Seq::<(K::V, V::V)>::empty());
        r
    }

    pub fn len(&self) -> (r: usize)
        ensures
            r == self@.len(),
    {
        self.rows.len()
    }

    pub fn key_at(&self, i: usize) -> (r: &K)
        requires
            i < self@.len(),
        ensures
            r@ == self@[i as int].0,
    {
        &self.rows[i].0
    }

    pub fn at(&self, i: usize) -> (r: &V)
        requires
            i < self@.len(),
        ensures
            r@ == self@[i as int].1,
    {
        &self.rows[i].1
    }

    /// The position of the row for `k`.
    pub fn find(&self, k: &K) -> (r: Option<usize>)
        ensures
            match r {
                Some(i) => i < self@.len() && i == row_of(self@, k@),
                None => row_of(self@, k@) < 0,
            },
    {
        let mut n: usize = self.rows.len();
        assert(self@.take(n as int) =~= self@);
        while n > 0
            invariant
                n <= self@.len(),
                self@.len() == self.rows@.len(),
                row_of(self@, k@) == row_of(self@.take(n as int), k@),
            decreases n,
        {
            if self.rows[n - 1].0.same(k) {
                return Some(n - 1);
            }
            assert(self@.take(n as int).drop_last() =~= self@.take(n - 1));
            n -= 1;
        }
        None
    }

    pub fn has(&self, k: &K) -> (r: bool)
        ensures
            r == has_key(self@, k@),
    {
        self.find(k).is_some()
    }

    pub fn get(&self, k: &K) -> (r: Option<&V>)
        ensures
            match r {
                Some(v) => lookup(self@, k@) == Some(v@),
                None => lookup(self@, k@) is None,
            },
    {
        match self.find(k) {
            Some(i) => Some(&self.rows[i].1),
            None => None,
        }
    }

    /// The value at `i`, to be changed in place.
    pub fn at_mut(&mut self, i: usize) -> (r: &mut V)
        requires
            i < old(self)@.len(),
        ensures
            r@ == old(self)@[i as int].1,
            final(self)@ == old(self)@.update(i as int, (old(self)@[i as int].0, final(r)@)),
    {
        &mut self.rows[i].1
    }

    /// Put `v` in for `k`.
    pub fn insert(&mut self, k: K, v: V)
        ensures
            final(self)@ == put(old(self)@, k@, v@),
    {
        match self.find(&k) {
            Some(i) => {
                self.rows.set(i, (k, v));
            },
            None => {
                self.rows.push((k, v));
            },
        }
        assert(self@ =~= put(old(self)@, k@, v@));
    }

    /// Add a row behind the others.
    pub fn push(&mut self, k: K, v: V)
        ensures
            final(self)@ == old(self)@.push((k@, v@)),
    {
        self.rows.push((k, v));
        assert(self@ =~= old(self)@.push((k@, v@)));
    }

    /// Take the value for `k` out.
    pub fn remove(&mut self, k: &K) -> (r: Option<V>)
        ensures
            final(self)@ == without(old(self)@, k@),
            match r {
                Some(v) => lookup(old(self)@, k@) == Some(v@),
                None => lookup(old(self)@, k@) is None,
            },
    {
        match self.find(k) {
            Some(i) => {
                let row = self.rows.remove(i);
                assert(self@ =~= without(old(self)@, k@));
                Some(row.1)
            },
            None => None,
        }
    }

    /// Take the row at `i` out.
    pub fn remove_at(&mut self, i: usize) -> (r: (K, V))
        requires
            i < old(self)@.len(),
        ensures
            final(self)@ == old(self)@.remove(i as int),
            (r.0@, r.1@) == old(self)@[i as int],
    {
        let row = self.rows.remove(i);
        assert(self@ =~= old(self)@.remove(i as int));
        row
    }

    pub fn clear(&mut self)
        ensures
            final(self)@ == Seq::<(K::V, V::V)>::empty(),
    {
        self.rows.clear();
        assert(self@ =~= Seq::<(K::V, V::V)>::empty());
    }
}

} // verus!
