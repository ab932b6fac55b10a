use vstd::prelude::*;

verus! {

/// The last position of `s` whose element satisfies `p`.
pub open spec fn last_index<T>(s: Seq<T>, p: spec_fn(T) -> bool) -> Option<int>
    decreases s.len(),
{
    if s.len() == 0 {
        None
    } else if p(s.last()) {
        Some(s.len() - 1)
    } else {
        last_index(s.drop_last(), p)
    }
}

/// No element satisfies `p`: there is no last index.
pub proof fn lemma_last_index_none<T>(s: Seq<T>, p: spec_fn(T) -> bool)
    requires
        forall|i: int| 0 <= i < s.len() ==> !p(#[trigger] s[i]),
    ensures
        last_index(s, p) is None,
    decreases s.len(),
{
    if s.len() > 0 {
        assert(!p(s[s.len() - 1]));
        assert forall|i: int| 0 <= i < s.drop_last().len() implies !p(#[trigger] s.drop_last()[i]) by {
            assert(s.drop_last()[i] == s[i]);
        }
        lemma_last_index_none(s.drop_last(), p);
    }
}

/// `k` satisfies `p` and nothing after it does: `k` is the last index.
pub proof fn lemma_last_index_at<T>(s: Seq<T>, p: spec_fn(T) -> bool, k: int)
    requires
        0 <= k < s.len(),
        p(s[k]),
        forall|j: int| k < j < s.len() ==> !p(#[trigger] s[j]),
    ensures
        last_index(s, p) == Some(k),
    decreases s.len(),
{
    if k < s.len() - 1 {
        assert(!p(s[s.len() - 1]));
        assert(s.drop_last()[k] == s[k]);
        assert forall|j: int| k < j < s.drop_last().len() implies !p(#[trigger] s.drop_last()[j]) by {
            assert(s.drop_last()[j] == s[j]);
        }
        lemma_last_index_at(s.drop_last(), p, k);
    }
}

/// What `last_index` tells about the sequence.
pub proof fn lemma_last_index_spec<T>(s: Seq<T>, p: spec_fn(T) -> bool)
    ensures
        last_index(s, p) matches Some(k) ==> 0 <= k < s.len() && p(s[k]) && forall|j: int|
            k < j < s.len() ==> !p(#[trigger] s[j]),
        last_index(s, p) is None ==> forall|i: int| 0 <= i < s.len() ==> !p(#[trigger] s[i]),
    decreases s.len(),
{
    if s.len() > 0 {
        lemma_last_index_spec(s.drop_last(), p);
        if !p(s.last()) {
            assert forall|i: int| 0 <= i < s.len() - 1 implies s.drop_last()[i] == s[i] by {}
        }
    }
}

/// Overwriting an element with one that agrees with it on `p` keeps the
/// last index.
pub proof fn lemma_last_index_update_same<T>(s: Seq<T>, p: spec_fn(T) -> bool, i: int, x: T)
    requires
        0 <= i < s.len(),
        p(x) == p(s[i]),
    ensures
        last_index(s.update(i, x), p) == last_index(s, p),
{
    let t = s.update(i, x);
    lemma_last_index_spec(s, p);
    assert forall|j: int| 0 <= j < s.len() implies p(#[trigger] t[j]) == p(s[j]) by {
        if j != i {
            assert(t[j] == s[j]);
        }
    }
    match last_index(s, p) {
        Some(k) => {
            assert forall|j: int| k < j < t.len() implies !p(#[trigger] t[j]) by {
                assert(p(t[j]) == p(s[j]));
            }
            assert(p(t[k]) == p(s[k]));
            lemma_last_index_at(t, p, k);
        },
        None => {
            assert forall|j: int| 0 <= j < t.len() implies !p(#[trigger] t[j]) by {
                assert(p(t[j]) == p(s[j]));
            }
            lemma_last_index_none(t, p);
        },
    }
}

/// Appending an element that does not satisfy `p` keeps the last index.
pub proof fn lemma_last_index_push_other<T>(s: Seq<T>, p: spec_fn(T) -> bool, x: T)
    requires
        !p(x),
    ensures
        last_index(s.push(x), p) == last_index(s, p),
{
    assert(s.push(x).drop_last() =~= s);
}

/// Appending an element that satisfies `p` makes it the last index.
pub proof fn lemma_last_index_push_match<T>(s: Seq<T>, p: spec_fn(T) -> bool, x: T)
    requires
        p(x),
    ensures
        last_index(s.push(x), p) == Some(s.len() as int),
{
}

/// Keeping the elements that satisfy `p` keeps a property that holds of
/// every two elements at distinct positions.
pub proof fn lemma_filter_pairwise<T>(s: Seq<T>, p: spec_fn(T) -> bool, r: spec_fn(T, T) -> bool)
    requires
        forall|i: int, j: int| 0 <= i < s.len() && 0 <= j < s.len() && i != j ==> #[trigger] r(s[i], s[j]),
    ensures
        forall|i: int, j: int|
            0 <= i < s.filter(p).len() && 0 <= j < s.filter(p).len() && i != j ==> #[trigger] r(
                s.filter(p)[i],
                s.filter(p)[j],
            ),
    decreases s.len(),
{
    reveal(Seq::filter);
    if s.len() > 0 {
        let t = s.drop_last();
        assert forall|i: int, j: int| 0 <= i < t.len() && 0 <= j < t.len() && i != j implies #[trigger] r(
            t[i],
            t[j],
        ) by {
            assert(t[i] == s[i] && t[j] == s[j]);
        }
        lemma_filter_pairwise(t, p, r);
        let g = t.filter(p);
        if p(s.last()) {
            let f = s.filter(p);
            assert(f == g.push(s.last()));
            assert forall|i: int, j: int| 0 <= i < f.len() && 0 <= j < f.len() && i != j implies #[trigger] r(
                f[i],
                f[j],
            ) by {
                let m = g.len() as int;
                if i < m && j < m {
                    assert(f[i] == g[i] && f[j] == g[j]);
                } else if i < m {
                    assert(g.contains(g[i]));
                    t.lemma_filter_contains_rev(p, g[i]);
                    let k = choose|k: int| 0 <= k < t.len() && t[k] == g[i];
                    assert(r(s[k], s[s.len() - 1]));
                    assert(f[i] == g[i]);
                } else {
                    assert(g.contains(g[j]));
                    t.lemma_filter_contains_rev(p, g[j]);
                    let k = choose|k: int| 0 <= k < t.len() && t[k] == g[j];
                    assert(r(s[s.len() - 1], s[k]));
                    assert(f[j] == g[j]);
                }
            }
        }
    }
}

/// Every element kept by a filter is an element of the sequence.
pub proof fn lemma_filter_member<T>(s: Seq<T>, p: spec_fn(T) -> bool, i: int)
    requires
        0 <= i < s.filter(p).len(),
    ensures
        exists|k: int| 0 <= k < s.len() && s[k] == s.filter(p)[i],
{
    assert(s.filter(p).contains(s.filter(p)[i]));
    s.lemma_filter_contains_rev(p, s.filter(p)[i]);
}

/// Removing one element keeps a property that holds of every two elements
/// at distinct positions.
pub proof fn lemma_remove_pairwise<T>(s: Seq<T>, i: int, r: spec_fn(T, T) -> bool)
    requires
        0 <= i < s.len(),
        forall|a: int, b: int| 0 <= a < s.len() && 0 <= b < s.len() && a != b ==> #[trigger] r(s[a], s[b]),
    ensures
        forall|a: int, b: int|
            0 <= a < s.remove(i).len() && 0 <= b < s.remove(i).len() && a != b ==> #[trigger] r(
                s.remove(i)[a],
                s.remove(i)[b],
            ),
{
    let t = s.remove(i);
    assert forall|a: int, b: int| 0 <= a < t.len() && 0 <= b < t.len() && a != b implies #[trigger] r(t[a], t[b]) by {
        let a0 = if a < i { a } else { a + 1 };
        let b0 = if b < i { b } else { b + 1 };
        assert(t[a] == s[a0]);
        assert(t[b] == s[b0]);
        assert(r(s[a0], s[b0]));
    }
}

} // verus!
