//! Ordering of keyed items, with the standard library's sort doing the work.
use vstd::prelude::*;

verus! {

broadcast use vstd::seq_lib::group_seq_properties, vstd::multiset::group_multiset_axioms;

/// The keys of a keyed sequence are pairwise distinct.
pub open spec fn distinct_keys<T>(s: Seq<(u64, T)>) -> bool {
    forall|i: int, j: int| 0 <= i < s.len() && 0 <= j < s.len() && i != j ==> s[i].0 != s[j].0
}

/// The keys of a keyed sequence strictly increase.
pub open spec fn strictly_increasing_keys<T>(s: Seq<(u64, T)>) -> bool {
    forall|i: int, j: int| 0 <= i < j < s.len() ==> s[i].0 < s[j].0
}

/// Calls `slice::sort_unstable_by_key` with the first component as key: the
/// items are rearranged (the same multiset) into non-decreasing key order.
#[verifier::external_body]
pub(crate) fn sort_by_first<T>(v: &mut Vec<(u64, T)>)
    ensures
        final(v)@.to_multiset() == old(v)@.to_multiset(),
        forall|i: int, j: int| 0 <= i < j < final(v)@.len() ==> final(v)@[i].0 <= final(v)@[j].0,
{
    v.sort_unstable_by_key(|e| e.0);
}

/// A sorted rearrangement of items with distinct keys holds the same items, in
/// strictly increasing key order.
pub proof fn lemma_sorted_distinct<T>(orig: Seq<(u64, T)>, sorted: Seq<(u64, T)>)
    requires
        sorted.to_multiset() == orig.to_multiset(),
        distinct_keys(orig),
        forall|i: int, j: int| 0 <= i < j < sorted.len() ==> sorted[i].0 <= sorted[j].0,
    ensures
        strictly_increasing_keys(sorted),
        sorted.len() == orig.len(),
        forall|x: (u64, T)| sorted.contains(x) <==> orig.contains(x),
{
    assert forall|x: (u64, T)| sorted.contains(x) <==> orig.contains(x) by {
        vstd::seq_lib::to_multiset_contains(sorted, x);
        vstd::seq_lib::to_multiset_contains(orig, x);
    }
    assert(orig.no_duplicates()) by {
        assert forall|i: int, j: int| 0 <= i < orig.len() && 0 <= j < orig.len() && i != j implies orig[i] != orig[j] by {
            assert(orig[i].0 != orig[j].0);
        }
    }
    orig.lemma_multiset_has_no_duplicates();
    sorted.lemma_multiset_has_no_duplicates_conv();
    vstd::seq_lib::to_multiset_len(sorted);
    vstd::seq_lib::to_multiset_len(orig);
    assert forall|i: int, j: int| 0 <= i < j < sorted.len() implies sorted[i].0 < sorted[j].0 by {
        if sorted[i].0 == sorted[j].0 {
            assert(sorted.contains(sorted[i]));
            assert(sorted.contains(sorted[j]));
            let a = orig.index_of(sorted[i]);
            let b = orig.index_of(sorted[j]);
            assert(orig.contains(sorted[i]));
            assert(orig.contains(sorted[j]));
            assert(sorted[i] != sorted[j]);
            assert(orig[a] == sorted[i]);
            assert(orig[b] == sorted[j]);
            assert(a != b);
        }
    }
}


// ---------------------------------------------------------------------------
// Text order and stable sorting by a text key
// ---------------------------------------------------------------------------

/// Lexicographic order of texts by code point, the order of `String` comparison.
pub open spec fn text_lt(a: Seq<char>, b: Seq<char>) -> bool
    decreases a.len(),
{
    if a.len() == 0 {
        b.len() > 0
    } else if b.len() == 0 {
        false
    } else if a[0] != b[0] {
        (a[0] as int) < (b[0] as int)
    } else {
        text_lt(a.drop_first(), b.drop_first())
    }
}

/// The text order is irreflexive and asymmetric.
pub proof fn lemma_text_lt_asym(a: Seq<char>, b: Seq<char>)
    ensures
        !text_lt(a, a),
        text_lt(a, b) ==> !text_lt(b, a),
    decreases a.len(),
{
    if a.len() > 0 {
        lemma_text_lt_asym(a.drop_first(), a.drop_first());
        if b.len() > 0 {
            lemma_text_lt_asym(a.drop_first(), b.drop_first());
        }
    }
}

/// The text order is total.
pub proof fn lemma_text_lt_total(a: Seq<char>, b: Seq<char>)
    ensures
        a != b ==> text_lt(a, b) || text_lt(b, a),
    decreases a.len(),
{
    if a.len() > 0 && b.len() > 0 && a[0] == b[0] {
        lemma_text_lt_total(a.drop_first(), b.drop_first());
        if a.drop_first() == b.drop_first() {
            assert(a =~= seq![a[0]] + a.drop_first());
            assert(b =~= seq![b[0]] + b.drop_first());
        }
    }
    if a.len() == 0 && b.len() == 0 {
        assert(a =~= b);
    }
    if a.len() > 0 && b.len() > 0 && a[0] != b[0] {
        let c = a[0];
        let d = b[0];
        assert((c as int) != (d as int));
    }
}

/// The text order is transitive.
pub proof fn lemma_text_lt_trans(a: Seq<char>, b: Seq<char>, c: Seq<char>)
    requires
        text_lt(a, b),
        text_lt(b, c),
    ensures
        text_lt(a, c),
    decreases a.len(),
{
    if a.len() > 0 && b.len() > 0 && c.len() > 0 && a[0] == b[0] && b[0] == c[0] {
        lemma_text_lt_trans(a.drop_first(), b.drop_first(), c.drop_first());
    }
}

/// Whether `a` comes before `b` in the text order.
pub fn chars_lt(a: &Vec<char>, b: &Vec<char>) -> (r: bool)
    ensures
        r == text_lt(a@, b@),
{
    let mut i: usize = 0;
    while i < a.len() && i < b.len() && a[i] == b[i]
        invariant
            i <= a.len(),
            i <= b.len(),
            text_lt(a@, b@) == text_lt(a@.skip(i as int), b@.skip(i as int)),
        decreases a.len() - i,
    {
        assert(a@.skip(i as int).drop_first() =~= a@.skip(i + 1));
        assert(b@.skip(i as int).drop_first() =~= b@.skip(i + 1));
        i = i + 1;
    }
    if i == a.len() {
        i < b.len()
    } else if i == b.len() {
        false
    } else {
        a[i] < b[i]
    }
}

/// Items are in non-decreasing text-key order.
pub open spec fn sorted_by_text<T>(s: Seq<(Vec<char>, T)>) -> bool {
    forall|i: int, j: int| 0 <= i < j < s.len() ==> !text_lt(s[j].0@, s[i].0@)
}

/// The items with key `k`, in order.
pub open spec fn with_key<T>(s: Seq<(Vec<char>, T)>, k: Seq<char>) -> Seq<(Vec<char>, T)> {
    s.filter(pair_has_key(k))
}

/// The predicate "the pair's key is `k`".
pub open spec fn pair_has_key<T>(k: Seq<char>) -> spec_fn((Vec<char>, T)) -> bool {
    |x: (Vec<char>, T)| x.0@ == k
}

/// `r` is the stable sort of `s` by text key: sorted, and for every key the
/// items with that key in their input order.
pub open spec fn stable_sorted_from<T>(s: Seq<(Vec<char>, T)>, r: Seq<(Vec<char>, T)>) -> bool {
    &&& sorted_by_text(r)
    &&& forall|k: Seq<char>| #[trigger] with_key(r, k) == with_key(s, k)
}

proof fn lemma_filter_split<T>(s: Seq<(Vec<char>, T)>, p: int, x: (Vec<char>, T), k: Seq<char>)
    requires
        0 <= p <= s.len(),
    ensures
        with_key(s.take(p) + seq![x] + s.skip(p), k) == with_key(s.take(p), k) + with_key(seq![x], k) + with_key(s.skip(p), k),
        with_key(s, k) == with_key(s.take(p), k) + with_key(s.skip(p), k),
{
    let f = pair_has_key::<T>(k);
    Seq::filter_distributes_over_add(s.take(p) + seq![x], s.skip(p), f);
    Seq::filter_distributes_over_add(s.take(p), seq![x], f);
    assert(s == s.take(p) + s.skip(p));
    Seq::filter_distributes_over_add(s.take(p), s.skip(p), f);
}

/// Sorts items stably by their text key (like `sort_by_key` on the key).
pub fn stable_sort_by_text<T>(v: Vec<(Vec<char>, T)>) -> (r: Vec<(Vec<char>, T)>)
    ensures
        stable_sorted_from(v@, r@),
{
    let mut r: Vec<(Vec<char>, T)> = Vec::new();
    let mut v = v;
    let ghost orig = v@;
    let mut rest: Vec<(Vec<char>, T)> = Vec::new();
    // move items out in reverse so that they can be popped in order
    while v.len() > 0
        invariant
            orig == v@ + rest@.reverse(),
        decreases v.len(),
    {
        let x = v.pop().unwrap();
        let ghost before = rest@;
        rest.push(x);
        proof {
            assert(rest@.reverse() =~= seq![x] + before.reverse());
        }
    }
    assert(v@ =~= Seq::<(Vec<char>, T)>::empty());
    assert(orig =~= rest@.reverse());
    let ghost n = orig.len();
    assert(with_key(r@, seq![]) == with_key(orig.take(0), seq![])) by {
        assert(orig.take(0) =~= Seq::<(Vec<char>, T)>::empty());
        assert(r@ =~= Seq::<(Vec<char>, T)>::empty());
    }
    while rest.len() > 0
        invariant
            n == orig.len(),
            rest@.len() <= n,
            orig == orig.take(n - rest@.len()) + rest@.reverse(),
            stable_sorted_from(orig.take(n - rest@.len()), r@),
        decreases rest.len(),
    {
        let ghost done = orig.take(n - rest@.len());
        let ghost old_rest = rest@;
        let x = rest.pop().unwrap();
        proof {
            assert(old_rest =~= rest@.push(x));
            assert(old_rest.reverse() =~= seq![x] + rest@.reverse());
            assert(orig =~= done.push(x) + rest@.reverse());
            assert(orig.take(n - rest@.len()) =~= done.push(x));
        }
        let mut p: usize = 0;
        while p < r.len() && !chars_lt(&x.0, &r[p].0)
            invariant
                p <= r@.len(),
                forall|i: int| 0 <= i < p ==> !text_lt(x.0@, r@[i].0@),
            decreases r@.len() - p,
        {
            p = p + 1;
        }
        let ghost s = r@;
        proof {
            assert forall|i: int| p <= i < s.len() implies text_lt(x.0@, s[i].0@) by {
                if p < s.len() {
                    if i > p {
                        assert(!text_lt(s[i].0@, s[p as int].0@));
                        lemma_text_lt_total(s[i].0@, s[p as int].0@);
                        if s[i].0@ != s[p as int].0@ {
                            lemma_text_lt_trans(x.0@, s[p as int].0@, s[i].0@);
                        }
                    }
                }
            }
        }
        r.insert(p, x);
        proof {
            let d2 = done.push(x);
            assert(r@ =~= s.take(p as int) + seq![x] + s.skip(p as int));
            assert(sorted_by_text(r@)) by {
                assert forall|i: int, j: int| 0 <= i < j < r@.len() implies !text_lt(r@[j].0@, r@[i].0@) by {
                    if j < p {
                        assert(r@[i] == s[i] && r@[j] == s[j]);
                    } else if j == p {
                        assert(r@[i] == s[i]);
                        lemma_text_lt_total(x.0@, s[i].0@);
                        lemma_text_lt_asym(x.0@, s[i].0@);
                    } else if i < p {
                        assert(r@[i] == s[i] && r@[j] == s[j - 1]);
                    } else if i == p {
                        assert(r@[j] == s[j - 1]);
                        lemma_text_lt_asym(x.0@, s[j - 1].0@);
                    } else {
                        assert(r@[i] == s[i - 1] && r@[j] == s[j - 1]);
                    }
                }
            }
            assert forall|k: Seq<char>| #[trigger] with_key(r@, k) == with_key(d2, k) by {
                lemma_filter_split(s, p as int, x, k);
                let f = pair_has_key::<T>(k);
                done.lemma_filter_push(x, f);
                if x.0@ == k {
                    assert(with_key(s.skip(p as int), k) =~= Seq::<(Vec<char>, T)>::empty()) by {
                        let t = s.skip(p as int);
                        if with_key(t, k).len() > 0 {
                            let y = with_key(t, k)[0];
                            t.filter_lemma(f);
                            assert(with_key(t, k).contains(y));
                            t.lemma_filter_contains_rev(f, y);
                            let i = choose|i: int| 0 <= i < t.len() && t[i] == y;
                            assert(t[i] == s[p + i]);
                            assert(text_lt(x.0@, s[p + i].0@));
                            lemma_text_lt_asym(x.0@, x.0@);
                        }
                    }
                    assert(with_key(seq![x], k) =~= seq![x]) by {
                        seq![x].filter_lemma(f);
                        reveal_with_fuel(Seq::filter, 2);
                    }
                } else {
                    assert(with_key(seq![x], k) =~= Seq::<(Vec<char>, T)>::empty()) by {
                        reveal_with_fuel(Seq::filter, 2);
                    }
                }
            }
        }
    }
    assert(orig.take(n as int) =~= orig);
    r
}

/// The predicate "has key `k`" for a key function.
pub open spec fn has_key<V>(key: spec_fn(V) -> Seq<char>, k: Seq<char>) -> spec_fn(V) -> bool {
    |x: V| key(x) == k
}

/// `r` is `s` sorted stably by `key` in text order: the keys do not decrease,
/// and for each key the items with that key are those of `s`, in their order.
pub open spec fn stably_sorted<V>(s: Seq<V>, r: Seq<V>, key: spec_fn(V) -> Seq<char>) -> bool {
    &&& forall|i: int, j: int| 0 <= i < j < r.len() ==> !text_lt(key(r[j]), key(r[i]))
    &&& forall|k: Seq<char>| #[trigger] r.filter(has_key(key, k)) == s.filter(has_key(key, k))
}

/// The values of the items of keyed pairs.
pub open spec fn item_views<T: View>(q: Seq<(Vec<char>, T)>) -> Seq<T::V> {
    q.map_values(|p: (Vec<char>, T)| p.1@)
}

/// Each pair carries the key of its item.
pub open spec fn keyed_by<T: View>(q: Seq<(Vec<char>, T)>, key: spec_fn(T::V) -> Seq<char>) -> bool {
    forall|i: int| 0 <= i < q.len() ==> (#[trigger] q[i]).0@ == key(q[i].1@)
}

proof fn lemma_item_views_filter<T: View>(q: Seq<(Vec<char>, T)>, key: spec_fn(T::V) -> Seq<char>, k: Seq<char>)
    requires
        keyed_by(q, key),
    ensures
        item_views(with_key(q, k)) == item_views(q).filter(has_key(key, k)),
    decreases q.len(),
{
    reveal(Seq::filter);
    if q.len() > 0 {
        let d = q.drop_last();
        assert forall|i: int| 0 <= i < d.len() implies (#[trigger] d[i]).0@ == key(d[i].1@) by {
            assert(d[i] == q[i]);
        }
        lemma_item_views_filter(d, key, k);
        assert(item_views(q).drop_last() =~= item_views(d));
        assert(q[q.len() - 1].0@ == key(q.last().1@));
        let f = pair_has_key::<T>(k);
        assert(with_key(q, k) == q.filter(f));
        if f(q.last()) {
            assert(item_views(d.filter(f).push(q.last())) =~= item_views(d.filter(f)).push(q.last().1@));
        }
    }
}

proof fn lemma_sorted_keys_kept<T: View>(s: Seq<(Vec<char>, T)>, r: Seq<(Vec<char>, T)>, key: spec_fn(T::V) -> Seq<char>)
    requires
        stable_sorted_from(s, r),
        keyed_by(s, key),
    ensures
        keyed_by(r, key),
{
    assert forall|i: int| 0 <= i < r.len() implies (#[trigger] r[i]).0@ == key(r[i].1@) by {
        let k = r[i].0@;
        let f = pair_has_key::<T>(k);
        r.filter_lemma(f);
        assert(r.filter(f).contains(r[i]));
        assert(with_key(r, k) == with_key(s, k));
        assert(s.filter(f).contains(r[i]));
        s.lemma_filter_contains_rev(f, r[i]);
        let j = choose|j: int| 0 <= j < s.len() && s[j] == r[i];
        assert(s[j].0@ == key(s[j].1@));
    }
}

/// A stable sort of keyed pairs, each carrying the key of its item, sorts the
/// items stably by that key.
pub proof fn lemma_stable_items<T: View>(s: Seq<(Vec<char>, T)>, r: Seq<(Vec<char>, T)>, key: spec_fn(T::V) -> Seq<char>)
    requires
        stable_sorted_from(s, r),
        keyed_by(s, key),
    ensures
        stably_sorted(item_views(s), item_views(r), key),
{
    lemma_sorted_keys_kept(s, r, key);
    assert forall|k: Seq<char>| #[trigger] item_views(r).filter(has_key(key, k)) == item_views(s).filter(has_key(key, k)) by {
        lemma_item_views_filter(s, key, k);
        lemma_item_views_filter(r, key, k);
        assert(with_key(r, k) == with_key(s, k));
    }
    assert forall|i: int, j: int| 0 <= i < j < item_views(r).len() implies !text_lt(key(item_views(r)[j]), key(item_views(r)[i])) by {
        assert(r[i].0@ == key(r[i].1@));
        assert(r[j].0@ == key(r[j].1@));
    }
}

} // verus!
