//! A small table from keys to values, each key at most once.
use crate::text::same;
use vstd::prelude::*;

verus! {

/// What can be the key of a table.
pub trait Key: View + Sized {
    /// Whether two keys are the same.
    fn same_key(&self, other: &Self) -> (r: bool)
        ensures
            r == (self@ == other@),
    ;

    /// A copy of a key.
    fn copy_key(&self) -> (r: Self)
        ensures
            r@ == self@,
    ;
}

impl Key for String {
    fn same_key(&self, other: &Self) -> (r: bool) {
        same(self.as_str(), other.as_str())
    }

    fn copy_key(&self) -> (r: Self) {
        self.clone()
    }
}

impl Key for u32 {
    fn same_key(&self, other: &Self) -> (r: bool) {
        *self == *other
    }

    fn copy_key(&self) -> (r: Self) {
        *self
    }
}

/// A table from keys to values.
pub struct Table<K: Key, V> {
    entries: Vec<(K, V)>,
}

/// Whether no two entries have the same key.
pub open spec fn distinct_keys<K: Key, V>(s: Seq<(K, V)>) -> bool {
    forall|i: int, j: int| 0 <= i < j < s.len() ==> #[trigger] s[i].0@ != #[trigger] s[j].0@
}

/// Whether entry `i` has the key `k`.
pub open spec fn key_at<K: Key, V>(s: Seq<(K, V)>, k: K::V, i: int) -> bool {
    0 <= i < s.len() && s[i].0@ == k
}

/// The mapping that entries stand for.
pub open spec fn mapping<K: Key, V>(s: Seq<(K, V)>) -> Map<K::V, V> {
    Map::new(
        |k: K::V| exists|i: int| key_at(s, k, i),
        |k: K::V| s[choose|i: int| key_at(s, k, i)].1,
    )
}

proof fn lemma_mapping_at<K: Key, V>(s: Seq<(K, V)>, i: int)
    requires
        distinct_keys(s),
        0 <= i < s.len(),
    ensures
        mapping(s).contains_key(s[i].0@),
        mapping(s)[s[i].0@] == s[i].1,
{
    let k = s[i].0@;
    assert(key_at(s, k, i));
    let j = choose|j: int| key_at(s, k, j);
    assert(key_at(s, k, j));
    if j < i {
        assert(s[j].0@ != s[i].0@);
    } else if i < j {
        assert(s[i].0@ != s[j].0@);
    }
}

proof fn lemma_mapping_push<K: Key, V>(s: Seq<(K, V)>, e: (K, V))
    requires
        distinct_keys(s),
        !mapping(s).contains_key(e.0@),
    ensures
        distinct_keys(s.push(e)),
        mapping(s.push(e)) == mapping(s).insert(e.0@, e.1),
{
    let t = s.push(e);
    assert forall|i: int, j: int| 0 <= i < j < t.len() implies #[trigger] t[i].0@ != #[trigger] t[j].0@ by {
        if j == s.len() {
            if t[i].0@ == e.0@ {
                assert(key_at(s, e.0@, i));
            }
        } else {
            assert(t[i] == s[i] && t[j] == s[j]);
        }
    }
    assert forall|k: K::V| #[trigger] mapping(t).contains_key(k) == mapping(s).insert(
        e.0@,
        e.1,
    ).contains_key(k) by {
        if exists|i: int| key_at(t, k, i) {
            let i = choose|i: int| key_at(t, k, i);
            if i < s.len() {
                assert(key_at(s, k, i));
            }
        }
        if exists|i: int| key_at(s, k, i) {
            let i = choose|i: int| key_at(s, k, i);
            assert(key_at(t, k, i));
        }
        assert(key_at(t, e.0@, s.len() as int));
    }
    assert forall|k: K::V| #[trigger] mapping(t).contains_key(k) implies mapping(t)[k] == mapping(
        s,
    ).insert(e.0@, e.1)[k] by {
        let i = choose|i: int| key_at(t, k, i);
        lemma_mapping_at(t, i);
        if i < s.len() {
            assert(s[i] == t[i]);
            lemma_mapping_at(s, i);
        }
    }
    assert(mapping(t) =~= mapping(s).insert(e.0@, e.1));
}

proof fn lemma_mapping_swap_remove<K: Key, V>(s: Seq<(K, V)>, i: int)
    requires
        distinct_keys(s),
        0 <= i < s.len(),
    ensures
        distinct_keys(s.update(i, s.last()).drop_last()),
        mapping(s.update(i, s.last()).drop_last()) == mapping(s).remove(s[i].0@),
{
    let t = s.update(i, s.last()).drop_last();
    let from = |j: int|
        if j == i {
            s.len() - 1
        } else {
            j
        };
    assert forall|j: int| 0 <= j < t.len() implies #[trigger] t[j] == s[from(j)] by {}
    assert forall|a: int, b: int| 0 <= a < b < t.len() implies #[trigger] t[a].0@
        != #[trigger] t[b].0@ by {
        assert(t[a] == s[from(a)] && t[b] == s[from(b)]);
        if from(a) < from(b) {
            assert(s[from(a)].0@ != s[from(b)].0@);
        } else {
            assert(s[from(b)].0@ != s[from(a)].0@);
        }
    }
    assert forall|k: K::V| #[trigger] mapping(t).contains_key(k) == mapping(s).remove(
        s[i].0@,
    ).contains_key(k) by {
        if exists|j: int| key_at(t, k, j) {
            let j = choose|j: int| key_at(t, k, j);
            assert(t[j] == s[from(j)]);
            assert(key_at(s, k, from(j)));
            if from(j) < i {
                assert(s[from(j)].0@ != s[i].0@);
            } else {
                assert(s[i].0@ != s[from(j)].0@);
            }
        }
        if k != s[i].0@ && exists|j: int| key_at(s, k, j) {
            let j = choose|j: int| key_at(s, k, j);
            if j == s.len() - 1 {
                assert(t[i] == s[from(i)]);
                assert(key_at(t, k, i));
            } else {
                assert(t[j] == s[from(j)]);
                assert(key_at(t, k, j));
            }
        }
    }
    assert forall|k: K::V| #[trigger] mapping(t).contains_key(k) implies mapping(t)[k] == mapping(
        s,
    ).remove(s[i].0@)[k] by {
        let j = choose|j: int| key_at(t, k, j);
        assert(t[j] == s[from(j)]);
        lemma_mapping_at(t, j);
        lemma_mapping_at(s, from(j));
    }
    assert(mapping(t) =~= mapping(s).remove(s[i].0@));
}

impl<K: Key, V> View for Table<K, V> {
    type V = Map<K::V, V>;

    closed spec fn view(&self) -> Map<K::V, V> {
        mapping(self.entries@)
    }
}

impl<K: Key, V> Table<K, V> {
    /// Whether the table is in order.
    pub closed spec fn wf(&self) -> bool {
        distinct_keys(self.entries@)
    }

    /// The entries, in an order of the table's own.
    pub closed spec fn rows(&self) -> Seq<(K, V)> {
        self.entries@
    }

    /// An empty table.
    pub fn new() -> (r: Self)
        ensures
            r.wf(),
            r@ == Map::<K::V, V>::empty(),
    {
        let r = Table { entries: Vec::new() };
        assert(r@ =~= Map::<K::V, V>::empty()) by {
            assert forall|k: K::V| !(#[trigger] r@.contains_key(k)) by {
                assert forall|i: int| !key_at(r.entries@, k, i) by {}
            }
        }
        r
    }

    fn position(&self, k: &K) -> (r: Option<usize>)
        requires
            self.wf(),
        ensures
            r is None == !self@.contains_key(k@),
            r matches Some(i) ==> i < self.entries@.len() && self.entries@[i as int].0@ == k@
                && self@[k@] == self.entries@[i as int].1,
    {
        for i in 0..self.entries.len()
            invariant
                self.wf(),
                forall|j: int| 0 <= j < i ==> !key_at(self.entries@, k@, j),
        {
            if self.entries[i].0.same_key(k) {
                proof {
                    lemma_mapping_at(self.entries@, i as int);
                }
                return Some(i);
            }
        }
        None
    }

    /// Sets the value of a key, and returns the one that it had.
    pub fn put(&mut self, k: &K, v: V) -> (r: Option<V>)
        requires
            old(self).wf(),
        ensures
            final(self).wf(),
            final(self)@ == old(self)@.insert(k@, v),
            r is Some == old(self)@.contains_key(k@),
            r matches Some(p) ==> p == old(self)@[k@],
    {
        match self.position(k) {
            Some(i) => {
                proof {
                    lemma_mapping_swap_remove(self.entries@, i as int);
                }
                let (_, p) = self.entries.swap_remove(i);
                assert(self@ == old(self)@.remove(k@));
                let e = (k.copy_key(), v);
                proof {
                    lemma_mapping_push(self.entries@, e);
                }
                self.entries.push(e);
                assert(self@ =~= old(self)@.insert(k@, v));
                Some(p)
            },
            None => {
                let e = (k.copy_key(), v);
                proof {
                    lemma_mapping_push(self.entries@, e);
                }
                self.entries.push(e);
                None
            },
        }
    }

    fn listed(keys: &Vec<K>, k: &K) -> (r: bool)
        ensures
            r == exists|i: int| 0 <= i < keys@.len() && #[trigger] keys@[i]@ == k@,
    {
        for i in 0..keys.len()
            invariant
                forall|j: int| 0 <= j < i ==> #[trigger] keys@[j]@ != k@,
        {
            if keys[i].same_key(k) {
                return true;
            }
        }
        false
    }

    /// Drops every key that is not among the given ones.
    pub fn keep(&mut self, keys: &Vec<K>)
        requires
            old(self).wf(),
        ensures
            final(self).wf(),
            final(self)@ == old(self)@.restrict(
                Set::new(|k: K::V| exists|i: int| 0 <= i < keys@.len() && #[trigger] keys@[i]@ == k),
            ),
    {
        let ghost kept = Set::new(
            |k: K::V| exists|i: int| 0 <= i < keys@.len() && #[trigger] keys@[i]@ == k,
        );
        let mut i: usize = 0;
        while i < self.entries.len()
            invariant
                self.wf(),
                i <= self.entries@.len(),
                kept == Set::new(
                    |k: K::V|
                        exists|j: int| 0 <= j < keys@.len() && #[trigger] keys@[j]@ == k,
                ),
                self@.restrict(kept) == old(self)@.restrict(kept),
                forall|j: int| 0 <= j < i ==> kept.contains(#[trigger] self.entries@[j].0@),
            decreases self.entries@.len() - i,
        {
            if Self::listed(keys, &self.entries[i].0) {
                i += 1;
            } else {
                let ghost before = self.entries@;
                proof {
                    lemma_mapping_swap_remove(self.entries@, i as int);
                }
                self.entries.swap_remove(i);
                assert(mapping(self.entries@) == mapping(before).remove(before[i as int].0@));
                assert(!kept.contains(before[i as int].0@));
                assert(mapping(self.entries@).restrict(kept) =~= mapping(before).restrict(kept));
                assert forall|j: int| 0 <= j < i implies kept.contains(
                    #[trigger] self.entries@[j].0@,
                ) by {
                    assert(self.entries@[j] == before[j]);
                }
            }
        }
        assert(self@.restrict(kept) =~= self@) by {
            assert forall|k: K::V| #[trigger] self@.contains_key(k) implies kept.contains(k) by {
                let j = choose|j: int| key_at(self.entries@, k, j);
                assert(kept.contains(self.entries@[j].0@));
            }
        }
    }

    /// How many entries there are.
    pub fn len(&self) -> (n: usize)
        ensures
            n == self.rows().len(),
    {
        self.entries.len()
    }

    /// The value of entry `i`.
    pub fn value(&self, i: usize) -> (v: &V)
        requires
            i < self.rows().len(),
        ensures
            *v == self.rows()[i as int].1,
    {
        &self.entries[i].1
    }

    /// The values of the entries are those of the table.
    pub proof fn rows_are_view(&self)
        requires
            self.wf(),
        ensures
            forall|i: int|
                0 <= i < self.rows().len() ==> self@.contains_key((#[trigger] self.rows()[i]).0@)
                    && self@[self.rows()[i].0@] == self.rows()[i].1,
            forall|k: K::V| #[trigger]
                self@.contains_key(k) ==> exists|i: int|
                    0 <= i < self.rows().len() && (#[trigger] self.rows()[i]).0@ == k
                        && self.rows()[i].1 == self@[k],
    {
        assert forall|i: int| 0 <= i < self.rows().len() implies self@.contains_key(
            (#[trigger] self.rows()[i]).0@,
        ) && self@[self.rows()[i].0@] == self.rows()[i].1 by {
            lemma_mapping_at(self.entries@, i);
        }
        assert forall|k: K::V| #[trigger] self@.contains_key(k) implies exists|i: int|
            0 <= i < self.rows().len() && (#[trigger] self.rows()[i]).0@ == k && self.rows()[i].1
                == self@[k] by {
            let i = choose|i: int| key_at(self.entries@, k, i);
            lemma_mapping_at(self.entries@, i);
            assert(self.rows()[i].0@ == k);
        }
    }
}

} // verus!
