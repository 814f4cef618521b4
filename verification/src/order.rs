//! Sorting: the order of texts, and in which order to take items so that their
//! keys ascend. Items with equal keys keep the order that they had.
use crate::text::{chars, pairs};
use vstd::prelude::*;
use vstd::relations::{sorted_by, total_ordering};

verus! {

/// Whether text `a` comes before text `b`: by the first character in which they
/// differ, else by length.
pub open spec fn text_before(a: Seq<char>, b: Seq<char>) -> bool
    decreases a.len(),
{
    if b.len() == 0 {
        false
    } else if a.len() == 0 {
        true
    } else if a[0] != b[0] {
        a[0] < b[0]
    } else {
        text_before(a.drop_first(), b.drop_first())
    }
}

/// Whether a key comes before another: by its first text, then by its second.
pub open spec fn key_before(a: (Seq<char>, Seq<char>), b: (Seq<char>, Seq<char>)) -> bool {
    text_before(a.0, b.0) || (a.0 == b.0 && text_before(a.1, b.1))
}

/// Whether item `i` is taken no later than item `j`.
pub open spec fn no_later(keys: Seq<(Seq<char>, Seq<char>)>, i: int, j: int) -> bool {
    key_before(keys[i], keys[j]) || (keys[i] == keys[j] && i <= j)
}

/// In which order to take items so that their keys ascend.
pub open spec fn order_of(keys: Seq<(Seq<char>, Seq<char>)>) -> Seq<int> {
    Seq::new(keys.len(), |i: int| i).sort_by(|i: int, j: int| no_later(keys, i, j))
}

/// Items in the order of their keys.
pub open spec fn ordered<T>(s: Seq<T>, keys: Seq<(Seq<char>, Seq<char>)>) -> Seq<T> {
    order_of(keys).map_values(|i: int| s[i])
}

/// Texts in ascending order.
pub open spec fn sorted_texts(s: Seq<Seq<char>>) -> Seq<Seq<char>> {
    ordered(s, s.map_values(|t: Seq<char>| (t, Seq::empty())))
}

/// Pairs of texts in ascending order.
pub open spec fn sorted_pairs(s: Seq<(Seq<char>, Seq<char>)>) -> Seq<(Seq<char>, Seq<char>)> {
    ordered(s, s)
}

/// Numbers in ascending order.
pub open spec fn sorted_numbers(s: Seq<u32>) -> Seq<u32> {
    s.sort_by(|x: u32, y: u32| x <= y)
}

proof fn lemma_text_before(a: Seq<char>, b: Seq<char>)
    ensures
        !(text_before(a, b) && text_before(b, a)),
        a == b ==> !text_before(a, b),
        a != b ==> text_before(a, b) || text_before(b, a),
    decreases a.len(),
{
    if a.len() > 0 && b.len() > 0 && a[0] == b[0] {
        lemma_text_before(a.drop_first(), b.drop_first());
        if a.drop_first() == b.drop_first() {
            assert(a =~= seq![a[0]] + a.drop_first());
            assert(b =~= seq![b[0]] + b.drop_first());
        }
    } else if a.len() == 0 && b.len() == 0 {
        assert(a =~= b);
    }
}

proof fn lemma_text_before_transitive(a: Seq<char>, b: Seq<char>, c: Seq<char>)
    requires
        text_before(a, b),
        text_before(b, c),
    ensures
        text_before(a, c),
    decreases a.len(),
{
    if a.len() > 0 && a[0] == b[0] && b[0] == c[0] {
        lemma_text_before_transitive(a.drop_first(), b.drop_first(), c.drop_first());
    }
}

proof fn lemma_no_later_is_total(keys: Seq<(Seq<char>, Seq<char>)>)
    ensures
        total_ordering(|i: int, j: int| no_later(keys, i, j)),
{
    let leq = |i: int, j: int| no_later(keys, i, j);
    assert forall|i: int, j: int|
        #![trigger leq(i, j)]
        (leq(i, j) || leq(j, i)) && (leq(i, j) && leq(j, i) ==> i == j) by {
        lemma_text_before(keys[i].0, keys[j].0);
        lemma_text_before(keys[i].1, keys[j].1);
    }
    assert forall|i: int, j: int, k: int| #[trigger] leq(i, j) && #[trigger] leq(j, k) implies leq(
        i,
        k,
    ) by {
        let (a, b, c) = (keys[i], keys[j], keys[k]);
        if text_before(a.0, b.0) && text_before(b.0, c.0) {
            lemma_text_before_transitive(a.0, b.0, c.0);
        } else if a.0 == b.0 && b.0 == c.0 && text_before(a.1, b.1) && text_before(b.1, c.1) {
            lemma_text_before_transitive(a.1, b.1, c.1);
        }
    }
}

/// The order takes every item once, and is the one order in which the keys
/// ascend and items with equal keys keep the order that they had.
pub proof fn order_is_stable_sort(keys: Seq<(Seq<char>, Seq<char>)>)
    ensures
        order_of(keys).len() == keys.len(),
        order_of(keys).to_multiset() == Seq::new(keys.len(), |i: int| i).to_multiset(),
        forall|a: int| 0 <= a < keys.len() ==> 0 <= #[trigger] order_of(keys)[a] < keys.len(),
        forall|a: int, b: int|
            0 <= a < b < keys.len() ==> no_later(
                keys,
                #[trigger] order_of(keys)[a],
                #[trigger] order_of(keys)[b],
            ),
{
    broadcast use vstd::seq_lib::group_to_multiset_ensures;

    let all = Seq::new(keys.len(), |i: int| i);
    let leq = |i: int, j: int| no_later(keys, i, j);
    lemma_no_later_is_total(keys);
    all.lemma_sort_by_ensures(leq);
    let order = order_of(keys);
    assert(order.len() == order.to_multiset().len());
    assert(all.len() == all.to_multiset().len());
    assert forall|a: int| 0 <= a < keys.len() implies 0 <= #[trigger] order[a] < keys.len() by {
        assert(order.contains(order[a]));
        assert(all.contains(order[a]));
    }
    assert forall|a: int, b: int| 0 <= a < b < keys.len() implies no_later(
        keys,
        #[trigger] order[a],
        #[trigger] order[b],
    ) by {
        assert(leq(order[a], order[b]));
    }
}

/// Whether text `a` comes before text `b`.
fn comes_before(a: &str, b: &str) -> (r: bool)
    ensures
        r == text_before(a@, b@),
{
    let x = chars(a);
    let y = chars(b);
    let mut i: usize = 0;
    assert(a@.skip(0) == a@ && b@.skip(0) == b@);
    while i < x.len() && i < y.len()
        invariant
            x@ == a@,
            y@ == b@,
            i <= x@.len(),
            i <= y@.len(),
            text_before(a@, b@) == text_before(a@.skip(i as int), b@.skip(i as int)),
        decreases x@.len() - i,
    {
        if x[i] != y[i] {
            return x[i] < y[i];
        }
        assert(a@.skip(i as int).drop_first() == a@.skip(i + 1));
        assert(b@.skip(i as int).drop_first() == b@.skip(i + 1));
        i += 1;
    }
    i < y.len()
}

fn key_comes_before(a: &(String, String), b: &(String, String)) -> (r: bool)
    ensures
        r == key_before((a.0@, a.1@), (b.0@, b.1@)),
{
    comes_before(a.0.as_str(), b.0.as_str()) || (crate::text::same(a.0.as_str(), b.0.as_str())
        && comes_before(a.1.as_str(), b.1.as_str()))
}

/// The indices of a sequence as numbers.
pub open spec fn indices(s: Seq<usize>) -> Seq<int> {
    s.map_values(|i: usize| i as int)
}

/// In which order to take items so that their keys ascend.
pub fn order(keys: &Vec<(String, String)>) -> (r: Vec<usize>)
    ensures
        indices(r@) == order_of(pairs(keys@)),
        r@.len() == keys@.len(),
        forall|i: int| 0 <= i < r@.len() ==> #[trigger] r@[i] < keys@.len(),
{
    broadcast use vstd::seq_lib::group_to_multiset_ensures;

    let ghost ks = pairs(keys@);
    let ghost leq = |i: int, j: int| no_later(ks, i, j);
    proof {
        lemma_no_later_is_total(ks);
    }
    let mut r: Vec<usize> = Vec::new();
    assert(indices(r@) =~= Seq::new(0, |i: int| i));
    for i in 0..keys.len()
        invariant
            ks == pairs(keys@),
            leq == (|i: int, j: int| no_later(ks, i, j)),
            total_ordering(leq),
            r@.len() == i,
            forall|k: int| 0 <= k < i ==> #[trigger] r@[k] < i,
            sorted_by(indices(r@), leq),
            indices(r@).to_multiset() == Seq::new(i as nat, |i: int| i).to_multiset(),
    {
        let mut p: usize = 0;
        while p < r.len() && !key_comes_before(&keys[i], &keys[r[p]])
            invariant
                i < keys@.len(),
                ks == pairs(keys@),
                p <= r@.len(),
                r@.len() == i,
                forall|k: int| 0 <= k < i ==> #[trigger] r@[k] < i,
                forall|k: int| 0 <= k < p ==> !key_before(ks[i as int], ks[#[trigger] r@[k] as int]),
            decreases r@.len() - p,
        {
            p += 1;
        }
        let ghost before = indices(r@);
        let ghost old_r = r@;
        r.insert(p, i);
        proof {
            let after = indices(r@);
            assert(after =~= before.insert(p as int, i as int));
            assert(Seq::new((i + 1) as nat, |i: int| i) =~= Seq::new(i as nat, |i: int| i).push(
                i as int,
            ));
            vstd::seq_lib::to_multiset_insert(before, p as int, i as int);
            vstd::seq_lib::to_multiset_build(Seq::new(i as nat, |i: int| i), i as int);
            assert forall|k: int| 0 <= k < p implies #[trigger] leq(before[k], i as int) by {
                assert(before[k] == old_r[k]);
                assert(leq(before[k], i as int) || leq(i as int, before[k]));
            }
            assert forall|k: int| p <= k < before.len() implies #[trigger] leq(i as int, before[k]) by {
                assert(before[k] == old_r[k] && before[p as int] == old_r[p as int]);
                assert(leq(i as int, before[p as int]));
                if k > p {
                    assert(leq(before[p as int], before[k]));
                }
            }
            assert forall|a: int, b: int| 0 <= a < b < after.len() implies #[trigger] leq(
                after[a],
                after[b],
            ) by {
                if a < p && b < p {
                    assert(leq(before[a], before[b]));
                } else if a < p && b > p {
                    assert(leq(before[a], before[b - 1]));
                } else if a > p {
                    assert(leq(before[a - 1], before[b - 1]));
                }
            }
        }
    }
    proof {
        let all = Seq::new(ks.len(), |i: int| i);
        all.lemma_sort_by_ensures(leq);
        vstd::seq_lib::lemma_sorted_unique(indices(r@), order_of(ks), leq);
    }
    r
}

/// Sorts texts.
pub fn sort_texts(v: &Vec<String>) -> (r: Vec<String>)
    ensures
        crate::text::texts(r@) == sorted_texts(crate::text::texts(v@)),
{
    let mut keys: Vec<(String, String)> = Vec::new();
    for i in 0..v.len()
        invariant
            keys@.len() == i,
            forall|k: int|
                0 <= k < i ==> (#[trigger] keys@[k]).0@ == v@[k]@ && keys@[k].1@ == Seq::<char>::empty(),
    {
        keys.push((v[i].clone(), String::new()));
    }
    let ghost ts = crate::text::texts(v@);
    assert(pairs(keys@) =~= ts.map_values(|t: Seq<char>| (t, Seq::empty())));
    let o = order(&keys);
    let mut r: Vec<String> = Vec::new();
    for i in 0..o.len()
        invariant
            r@.len() == i,
            o@.len() == v@.len(),
            forall|k: int| 0 <= k < o@.len() ==> #[trigger] o@[k] < v@.len(),
            forall|k: int| 0 <= k < i ==> (#[trigger] r@[k])@ == v@[o@[k] as int]@,
    {
        r.push(v[o[i]].clone());
    }
    assert(crate::text::texts(r@) =~= sorted_texts(ts)) by {
        assert forall|k: int| 0 <= k < r@.len() implies r@[k]@ == #[trigger] sorted_texts(ts)[k] by {
            assert(indices(o@)[k] == o@[k]);
        }
    }
    r
}

/// Sorts pairs of texts.
pub fn sort_pairs(v: &Vec<(String, String)>) -> (r: Vec<(String, String)>)
    ensures
        pairs(r@) == sorted_pairs(pairs(v@)),
{
    let o = order(v);
    let mut r: Vec<(String, String)> = Vec::new();
    for i in 0..o.len()
        invariant
            r@.len() == i,
            o@.len() == v@.len(),
            forall|k: int| 0 <= k < o@.len() ==> #[trigger] o@[k] < v@.len(),
            forall|k: int|
                0 <= k < i ==> (#[trigger] r@[k]).0@ == v@[o@[k] as int].0@ && r@[k].1@
                    == v@[o@[k] as int].1@,
    {
        r.push((v[o[i]].0.clone(), v[o[i]].1.clone()));
    }
    let ghost ps = pairs(v@);
    assert(pairs(r@) =~= sorted_pairs(ps)) by {
        assert forall|k: int| 0 <= k < r@.len() implies pairs(r@)[k] == #[trigger] sorted_pairs(
            ps,
        )[k] by {
            assert(indices(o@)[k] == o@[k]);
        }
    }
    r
}

/// Sorts numbers.
pub fn sort_numbers(v: &Vec<u32>) -> (r: Vec<u32>)
    ensures
        r@ == sorted_numbers(v@),
{
    broadcast use vstd::seq_lib::group_to_multiset_ensures;

    let ghost leq = |x: u32, y: u32| x <= y;
    let mut r: Vec<u32> = Vec::new();
    assert(v@.take(0) =~= Seq::empty());
    for i in 0..v.len()
        invariant
            leq == (|x: u32, y: u32| x <= y),
            r@.len() == i,
            sorted_by(r@, leq),
            r@.to_multiset() == v@.take(i as int).to_multiset(),
    {
        let mut p: usize = 0;
        while p < r.len() && r[p] <= v[i]
            invariant
                i < v@.len(),
                p <= r@.len(),
                forall|k: int| 0 <= k < p ==> #[trigger] r@[k] <= v@[i as int],
            decreases r@.len() - p,
        {
            p += 1;
        }
        let ghost before = r@;
        r.insert(p, v[i]);
        proof {
            assert(r@ =~= before.insert(p as int, v@[i as int]));
            assert(v@.take(i + 1) =~= v@.take(i as int).push(v@[i as int]));
            vstd::seq_lib::to_multiset_insert(before, p as int, v@[i as int]);
            vstd::seq_lib::to_multiset_build(v@.take(i as int), v@[i as int]);
            assert forall|a: int, b: int| 0 <= a < b < r@.len() implies #[trigger] leq(
                r@[a],
                r@[b],
            ) by {
                if p < before.len() && b > p {
                    assert(p < b - 1 ==> leq(before[p as int], before[b - 1]));
                }
                if a < p && b < p {
                    assert(leq(before[a], before[b]));
                } else if a < p && b > p {
                    assert(leq(before[a], before[b - 1]));
                } else if a > p {
                    assert(leq(before[a - 1], before[b - 1]));
                }
            }
        }
    }
    proof {
        assert(v@.take(v@.len() as int) =~= v@);
        assert(total_ordering(leq));
        v@.lemma_sort_by_ensures(leq);
        vstd::seq_lib::lemma_sorted_unique(r@, sorted_numbers(v@), leq);
    }
    r
}

/// Whether text `a` comes before text `b` in the order of their characters: at the
/// first place at which they differ it has the lower one, or it is where `a` ends.
pub proof fn texts_are_ordered_by_their_characters(a: Seq<char>, b: Seq<char>, k: int)
    requires
        0 <= k <= a.len(),
        k <= b.len(),
        a.take(k) == b.take(k),
        k < a.len() && k < b.len() ==> a[k] != b[k],
    ensures
        k < a.len() && k < b.len() ==> (text_before(a, b) <==> a[k] < b[k]),
        k == a.len() ==> (text_before(a, b) <==> k < b.len()),
        k < a.len() && k == b.len() ==> !text_before(a, b),
    decreases k,
{
    if k > 0 {
        assert(a[0] == a.take(k)[0] && b[0] == b.take(k)[0]);
        let (x, y) = (a.drop_first(), b.drop_first());
        assert(x.take(k - 1) =~= a.take(k).drop_first());
        assert(y.take(k - 1) =~= b.take(k).drop_first());
        texts_are_ordered_by_their_characters(x, y, k - 1);
    }
}

/// Whether item `i` has a place among the items in the order of their keys.
pub open spec fn has_a_place<T>(s: Seq<T>, keys: Seq<(Seq<char>, Seq<char>)>, i: int) -> bool {
    exists|k: int|
        0 <= k < s.len() && order_of(keys)[k] == i && (#[trigger] ordered(s, keys)[k]) == s[i]
}

/// Items in the order of their keys are the same items: each place of the one has a
/// place in the other, and a later item never has the lower key.
pub proof fn ordered_items_are_the_items<T>(s: Seq<T>, keys: Seq<(Seq<char>, Seq<char>)>)
    requires
        s.len() == keys.len(),
    ensures
        ordered(s, keys).len() == s.len(),
        forall|i: int| 0 <= i < s.len() ==> #[trigger] has_a_place(s, keys, i),
        forall|k: int|
            0 <= k < s.len() ==> 0 <= order_of(keys)[k] < s.len() && (#[trigger] ordered(
                s,
                keys,
            )[k]) == s[order_of(keys)[k]],
        forall|k: int, m: int|
            0 <= k < m < s.len() ==> !key_before(
                keys[#[trigger] order_of(keys)[m]],
                keys[#[trigger] order_of(keys)[k]],
            ),
{
    broadcast use vstd::seq_lib::group_to_multiset_ensures;

    order_is_stable_sort(keys);
    let all = Seq::new(keys.len(), |i: int| i);
    let order = order_of(keys);
    assert forall|i: int| 0 <= i < s.len() implies #[trigger] has_a_place(s, keys, i) by {
        assert(all[i] == i);
        assert(all.contains(i));
        assert(all.to_multiset().contains(i));
        assert(order.to_multiset().contains(i));
        assert(order.contains(i));
        let k = choose|k: int| 0 <= k < order.len() && order[k] == i;
        assert(ordered(s, keys)[k] == s[i]);
    }
    assert forall|k: int, m: int| 0 <= k < m < s.len() implies !key_before(
        keys[#[trigger] order_of(keys)[m]],
        keys[#[trigger] order_of(keys)[k]],
    ) by {
        assert(no_later(keys, order[k], order[m]));
        let (a, b) = (keys[order[k]], keys[order[m]]);
        lemma_text_before(a.0, b.0);
        lemma_text_before(a.1, b.1);
    }
}

/// Numbers in ascending order are the same numbers.
pub proof fn sorted_numbers_are_the_numbers(s: Seq<u32>)
    ensures
        sorted_numbers(s).to_multiset() == s.to_multiset(),
        sorted_numbers(s).len() == s.len(),
        forall|i: int, j: int|
            0 <= i < j < s.len() ==> #[trigger] sorted_numbers(s)[i] <= #[trigger] sorted_numbers(
                s,
            )[j],
        forall|n: u32| #[trigger] sorted_numbers(s).contains(n) <==> s.contains(n),
{
    broadcast use vstd::seq_lib::group_to_multiset_ensures;

    let leq = |x: u32, y: u32| x <= y;
    assert(vstd::relations::total_ordering(leq));
    s.lemma_sort_by_ensures(leq);
    let t = sorted_numbers(s);
    assert(t.len() == t.to_multiset().len());
    assert(s.len() == s.to_multiset().len());
    assert forall|i: int, j: int| 0 <= i < j < s.len() implies #[trigger] t[i] <= #[trigger] t[j] by {
        assert(leq(t[i], t[j]));
    }
    assert forall|n: u32| #[trigger] t.contains(n) <==> s.contains(n) by {
        assert(t.to_multiset().contains(n) <==> t.contains(n));
        assert(s.to_multiset().contains(n) <==> s.contains(n));
    }
}

} // verus!
