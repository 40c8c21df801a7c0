use vstd::prelude::*;

verus! {

/// A value paired with the integer key it is sorted by.
#[derive(Clone, Copy, Debug)]
pub struct Keyed<T> {
    pub key: i64,
    pub val: T,
}

/// Where a stable insertion puts `x`: behind every element whose key is at
/// most `x.key`, in front of every element whose key is greater.
pub open spec fn insert_sorted<T>(s: Seq<Keyed<T>>, x: Keyed<T>) -> Seq<Keyed<T>>
    decreases s.len(),
{
    if s.len() == 0 {
        seq![x]
    } else if s.last().key > x.key {
        insert_sorted(s.drop_last(), x).push(s.last())
    } else {
        s.push(x)
    }
}

/// The unique stable sort of `s` by key: equal keys keep their original
/// relative order.
pub open spec fn stable_sort_spec<T>(s: Seq<Keyed<T>>) -> Seq<Keyed<T>>
    decreases s.len(),
{
    if s.len() == 0 {
        Seq::empty()
    } else {
        insert_sorted(stable_sort_spec(s.drop_last()), s.last())
    }
}

/// Keys never decrease along the sequence.
pub open spec fn sorted_by_key<T>(s: Seq<Keyed<T>>) -> bool {
    forall|i: int, j: int| 0 <= i < j < s.len() ==> s[i].key <= s[j].key
}

proof fn lemma_insert_sorted_len<T>(s: Seq<Keyed<T>>, x: Keyed<T>)
    ensures
        insert_sorted(s, x).len() == s.len() + 1,
    decreases s.len(),
{
    if s.len() > 0 && s.last().key > x.key {
        lemma_insert_sorted_len(s.drop_last(), x);
    }
}

/// Inserting at the position an exec scan found matches the recursive
/// definition of a stable insertion.
proof fn lemma_insert_sorted_at<T>(s: Seq<Keyed<T>>, x: Keyed<T>, j: int)
    requires
        0 <= j <= s.len(),
        forall|m: int| j <= m < s.len() ==> s[m].key > x.key,
        j > 0 ==> s[j - 1].key <= x.key,
    ensures
        insert_sorted(s, x) == s.subrange(0, j).push(x) + s.subrange(j, s.len() as int),
    decreases s.len(),
{
    if j == s.len() {
        if s.len() == 0 {
            assert(insert_sorted(s, x) =~= s.subrange(0, j).push(x) + s.subrange(j, s.len() as int));
        } else {
            assert(s.last().key <= x.key);
            assert(insert_sorted(s, x) == s.push(x));
            assert(s.push(x) =~= s.subrange(0, j).push(x) + s.subrange(j, s.len() as int));
        }
    } else {
        assert(s.last().key > x.key);
        let dl = s.drop_last();
        lemma_insert_sorted_at(dl, x, j);
        assert(dl.subrange(0, j) =~= s.subrange(0, j));
        assert(insert_sorted(s, x) == (dl.subrange(0, j).push(x) + dl.subrange(j, dl.len() as int)).push(s.last()));
        assert((dl.subrange(0, j).push(x) + dl.subrange(j, dl.len() as int)).push(s.last())
            =~= s.subrange(0, j).push(x) + s.subrange(j, s.len() as int));
    }
}

proof fn lemma_insert_sorted_preserves_order<T>(s: Seq<Keyed<T>>, x: Keyed<T>)
    requires
        sorted_by_key(s),
    ensures
        sorted_by_key(insert_sorted(s, x)),
    decreases s.len(),
{
    lemma_insert_sorted_len(s, x);
    if s.len() == 0 {
    } else if s.last().key > x.key {
        let dl = s.drop_last();
        assert(sorted_by_key(dl));
        lemma_insert_sorted_preserves_order(dl, x);
        lemma_insert_sorted_len(dl, x);
        let sub = insert_sorted(dl, x);
        let out = insert_sorted(s, x);
        assert forall|i: int, j: int| 0 <= i < j < out.len() implies out[i].key <= out[j].key by {
            if j < out.len() - 1 {
                assert(out[i] == sub[i] && out[j] == sub[j]);
            } else {
                assert(out[j] == s.last());
                if i < out.len() - 1 {
                    assert(out[i] == sub[i]);
                    lemma_insert_sorted_members(dl, x, i);
                }
            }
        }
    }
}

/// Every element of a stable insertion is either `x` or an element of `s`.
proof fn lemma_insert_sorted_members<T>(s: Seq<Keyed<T>>, x: Keyed<T>, p: int)
    requires
        0 <= p < insert_sorted(s, x).len(),
    ensures
        insert_sorted(s, x)[p] == x || s.contains(insert_sorted(s, x)[p]),
    decreases s.len(),
{
    lemma_insert_sorted_len(s, x);
    if s.len() == 0 {
    } else if s.last().key > x.key {
        let dl = s.drop_last();
        let out = insert_sorted(s, x);
        lemma_insert_sorted_len(dl, x);
        if p == out.len() - 1 {
            assert(out[p] == s.last());
            assert(s.contains(s.last()));
        } else {
            lemma_insert_sorted_members(dl, x, p);
            if dl.contains(out[p]) {
                let i = choose|i: int| 0 <= i < dl.len() && dl[i] == out[p];
                assert(s[i] == out[p]);
                assert(s.contains(out[p]));
            }
        }
    } else {
        if p == s.len() {
            assert(insert_sorted(s, x)[p] == x);
        } else {
            assert(insert_sorted(s, x)[p] == s[p]);
            assert(s.contains(s[p]));
        }
    }
}

proof fn lemma_insert_sorted_contains<T>(s: Seq<Keyed<T>>, x: Keyed<T>, y: Keyed<T>)
    requires
        s.contains(y) || y == x,
    ensures
        insert_sorted(s, x).contains(y),
    decreases s.len(),
{
    lemma_insert_sorted_len(s, x);
    if s.len() == 0 {
        assert(insert_sorted(s, x)[0] == x);
    } else if s.last().key > x.key {
        let dl = s.drop_last();
        let out = insert_sorted(s, x);
        lemma_insert_sorted_len(dl, x);
        if y == s.last() {
            assert(out.last() == y);
        } else {
            if s.contains(y) {
                let i = choose|i: int| 0 <= i < s.len() && s[i] == y;
                assert(dl[i] == y);
                assert(dl.contains(y));
            }
            lemma_insert_sorted_contains(dl, x, y);
            let p = choose|p: int| 0 <= p < insert_sorted(dl, x).len() && insert_sorted(dl, x)[p] == y;
            assert(out[p] == y);
        }
    } else {
        if y == x {
            assert(insert_sorted(s, x).last() == y);
        } else {
            let i = choose|i: int| 0 <= i < s.len() && s[i] == y;
            assert(insert_sorted(s, x)[i] == y);
        }
    }
}

proof fn lemma_insert_sorted_multiset<T>(s: Seq<Keyed<T>>, x: Keyed<T>)
    ensures
        insert_sorted(s, x).to_multiset() == s.to_multiset().insert(x),
    decreases s.len(),
{
    broadcast use vstd::multiset::group_multiset_axioms;

    if s.len() == 0 {
        assert(s =~= Seq::<Keyed<T>>::empty());
        Seq::<Keyed<T>>::empty().to_multiset_ensures();
        assert(seq![x] =~= Seq::<Keyed<T>>::empty().push(x));
        assert(insert_sorted(s, x).to_multiset() =~= s.to_multiset().insert(x));
    } else if s.last().key > x.key {
        let dl = s.drop_last();
        lemma_insert_sorted_multiset(dl, x);
        insert_sorted(dl, x).to_multiset_ensures();
        dl.to_multiset_ensures();
        assert(dl.push(s.last()) =~= s);
        assert(dl.to_multiset().insert(x).insert(s.last()) =~= dl.to_multiset().insert(
            s.last(),
        ).insert(x));
    } else {
        s.to_multiset_ensures();
    }
}

/// Law: a stable sort is a permutation — it keeps the multiset of elements.
pub proof fn law_stable_sort_multiset<T>(s: Seq<Keyed<T>>)
    ensures
        stable_sort_spec(s).to_multiset() == s.to_multiset(),
    decreases s.len(),
{
    if s.len() == 0 {
        assert(s =~= Seq::<Keyed<T>>::empty());
    } else {
        let dl = s.drop_last();
        law_stable_sort_multiset(dl);
        lemma_insert_sorted_multiset(stable_sort_spec(dl), s.last());
        dl.to_multiset_ensures();
        assert(dl.push(s.last()) =~= s);
    }
}

/// Law: a stable sort of distinct elements has distinct elements.
pub proof fn law_stable_sort_no_duplicates<T>(s: Seq<Keyed<T>>)
    requires
        s.no_duplicates(),
    ensures
        stable_sort_spec(s).no_duplicates(),
{
    law_stable_sort_multiset(s);
    s.lemma_multiset_has_no_duplicates();
    stable_sort_spec(s).lemma_multiset_has_no_duplicates_conv();
}

/// Law: every element of a stable sort comes from its input.
pub proof fn law_stable_sort_members<T>(s: Seq<Keyed<T>>, p: int)
    requires
        0 <= p < stable_sort_spec(s).len(),
    ensures
        s.contains(stable_sort_spec(s)[p]),
    decreases s.len(),
{
    if s.len() > 0 {
        let dl = s.drop_last();
        lemma_insert_sorted_members(stable_sort_spec(dl), s.last(), p);
        let x = stable_sort_spec(s)[p];
        if x == s.last() {
            assert(s.contains(s.last()));
        } else {
            let q = choose|q: int|
                0 <= q < stable_sort_spec(dl).len() && stable_sort_spec(dl)[q] == x;
            law_stable_sort_members(dl, q);
            let i = choose|i: int| 0 <= i < dl.len() && dl[i] == x;
            assert(s[i] == x);
        }
    }
}

/// Law: a stable sort orders its result by key.
pub proof fn law_stable_sort_sorted<T>(s: Seq<Keyed<T>>)
    ensures
        sorted_by_key(stable_sort_spec(s)),
    decreases s.len(),
{
    if s.len() > 0 {
        law_stable_sort_sorted(s.drop_last());
        lemma_insert_sorted_preserves_order(stable_sort_spec(s.drop_last()), s.last());
    }
}

/// Law: a stable sort loses no element.
pub proof fn law_stable_sort_contains<T>(s: Seq<Keyed<T>>, y: Keyed<T>)
    requires
        s.contains(y),
    ensures
        stable_sort_spec(s).contains(y),
    decreases s.len(),
{
    if s.len() > 0 {
        let dl = s.drop_last();
        if y == s.last() {
            lemma_insert_sorted_contains(stable_sort_spec(dl), s.last(), y);
        } else {
            let i = choose|i: int| 0 <= i < s.len() && s[i] == y;
            assert(dl[i] == y);
            assert(dl.contains(y));
            law_stable_sort_contains(dl, y);
            lemma_insert_sorted_contains(stable_sort_spec(dl), s.last(), y);
        }
    }
}

/// Law: a stable sort keeps the length.
pub proof fn law_stable_sort_len<T>(s: Seq<Keyed<T>>)
    ensures
        stable_sort_spec(s).len() == s.len(),
    decreases s.len(),
{
    if s.len() > 0 {
        law_stable_sort_len(s.drop_last());
        lemma_insert_sorted_len(stable_sort_spec(s.drop_last()), s.last());
    }
}

/// Sorts by key with a stable insertion sort: among equal keys the input
/// order is kept.
pub fn stable_sort_by_key<T: Copy>(v: &Vec<Keyed<T>>) -> (r: Vec<Keyed<T>>)
    ensures
        r@ == stable_sort_spec(v@),
{
    let mut r: Vec<Keyed<T>> = Vec::new();
    let mut i: usize = 0;
    while i < v.len()
        invariant
            i <= v.len(),
            r@ == stable_sort_spec(v@.take(i as int)),
        decreases v.len() - i,
    {
        let x = v[i];
        let mut j: usize = r.len();
        while j > 0 && r[j - 1].key > x.key
            invariant
                j <= r.len(),
                forall|m: int| j <= m < r@.len() ==> r@[m].key > x.key,
            decreases j,
        {
            j = j - 1;
        }
        proof {
            lemma_insert_sorted_at(r@, x, j as int);
        }
        r.insert(j, x);
        proof {
            assert(v@.take(i + 1).drop_last() =~= v@.take(i as int));
            assert(v@.take(i + 1).last() == v@[i as int]);
            assert(r@ =~= stable_sort_spec(v@.take(i as int)).subrange(0, j as int).push(x)
                + stable_sort_spec(v@.take(i as int)).subrange(j as int, stable_sort_spec(v@.take(i as int)).len() as int));
        }
        i = i + 1;
    }
    proof {
        assert(v@.take(v@.len() as int) =~= v@);
    }
    r
}

} // verus!
