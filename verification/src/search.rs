//! The first index at which something holds, and counts over sequences:
//! what the contracts of this crate are stated with.

use vstd::prelude::*;

verus! {

/// Whether `i` is the least index below `n` at which `p` holds.
pub open spec fn is_first(n: int, p: spec_fn(int) -> bool, i: int) -> bool {
    &&& 0 <= i < n
    &&& p(i)
    &&& forall|j: int| 0 <= j < i ==> !#[trigger] p(j)
}

/// The least index below `n` at which `p` holds, if there is one.
pub open spec fn first_below(n: int, p: spec_fn(int) -> bool) -> Option<int> {
    if exists|i: int| 0 <= i < n && #[trigger] p(i) {
        Some(choose|i: int| is_first(n, p, i))
    } else {
        None
    }
}

proof fn lemma_least_exists(n: int, p: spec_fn(int) -> bool, i: int)
    requires
        0 <= i < n,
        p(i),
    ensures
        exists|k: int| is_first(n, p, k),
    decreases i,
{
    if exists|j: int| 0 <= j < i && #[trigger] p(j) {
        let j = choose|j: int| 0 <= j < i && #[trigger] p(j);
        lemma_least_exists(n, p, j);
    } else {
        assert(is_first(n, p, i));
    }
}

/// `first_below` gives the index that is first.
pub proof fn lemma_first_below_is(n: int, p: spec_fn(int) -> bool, i: int)
    requires
        is_first(n, p, i),
    ensures
        first_below(n, p) == Some(i),
{
    let k = choose|k: int| is_first(n, p, k);
    assert(is_first(n, p, k));
    if k < i {
        assert(!p(k));
    } else if i < k {
        assert(!p(i));
    }
}

/// What `first_below` gives is first; it gives nothing only where `p` holds nowhere.
pub proof fn lemma_first_below(n: int, p: spec_fn(int) -> bool)
    ensures
        match first_below(n, p) {
            Some(i) => is_first(n, p, i),
            None => forall|i: int| 0 <= i < n ==> !#[trigger] p(i),
        },
{
    if exists|i: int| 0 <= i < n && #[trigger] p(i) {
        let i = choose|i: int| 0 <= i < n && #[trigger] p(i);
        lemma_least_exists(n, p, i);
    }
}

/// Two sequences that agree on `p`, place by place, hold as many elements that meet it.
pub proof fn lemma_filter_len_same<T>(a: Seq<T>, b: Seq<T>, p: spec_fn(T) -> bool)
    requires
        a.len() == b.len(),
        forall|k: int| 0 <= k < a.len() ==> p(#[trigger] a[k]) == p(b[k]),
    ensures
        a.filter(p).len() == b.filter(p).len(),
    decreases a.len(),
{
    if a.len() > 0 {
        lemma_filter_len_same(a.drop_last(), b.drop_last(), p);
        assert(a =~= a.drop_last().push(a.last()));
        assert(b =~= b.drop_last().push(b.last()));
        Seq::lemma_filter_len_push(a.drop_last(), p, a.last());
        Seq::lemma_filter_len_push(b.drop_last(), p, b.last());
        assert(p(a[a.len() - 1]) == p(b[a.len() - 1]));
    } else {
        assert(a =~= b);
    }
}

/// Taking one element out takes it out of the count of those that meet `p`, if it met it.
pub proof fn lemma_filter_len_remove<T>(s: Seq<T>, i: int, p: spec_fn(T) -> bool)
    requires
        0 <= i < s.len(),
    ensures
        s.remove(i).filter(p).len() == s.filter(p).len() - (if p(s[i]) {
            1int
        } else {
            0int
        }),
{
    let before = s.subrange(0, i);
    let after = s.subrange(i + 1, s.len() as int);
    assert(s =~= before.push(s[i]) + after);
    assert(s.remove(i) =~= before + after);
    Seq::filter_distributes_over_add(before.push(s[i]), after, p);
    Seq::filter_distributes_over_add(before, after, p);
    Seq::lemma_filter_len_push(before, p, s[i]);
}

/// Mapping a sequence with one more element maps the sequence, then the element.
pub proof fn lemma_map_push<A, B>(s: Seq<A>, a: A, f: spec_fn(A) -> B)
    ensures
        s.push(a).map_values(f) == s.map_values(f).push(f(a)),
{
    assert(s.push(a).map_values(f) =~= s.map_values(f).push(f(a)));
}

/// Replacing one element changes the count of those that meet `p` by what the
/// old element and the new one add to it.
pub proof fn lemma_filter_len_update<T>(s: Seq<T>, i: int, v: T, p: spec_fn(T) -> bool)
    requires
        0 <= i < s.len(),
    ensures
        s.update(i, v).filter(p).len() == s.filter(p).len() - (if p(s[i]) {
            1int
        } else {
            0int
        }) + (if p(v) {
            1int
        } else {
            0int
        }),
{
    let before = s.subrange(0, i);
    let after = s.subrange(i + 1, s.len() as int);
    assert(s =~= before.push(s[i]) + after);
    assert(s.update(i, v) =~= before.push(v) + after);
    Seq::filter_distributes_over_add(before.push(s[i]), after, p);
    Seq::filter_distributes_over_add(before.push(v), after, p);
    Seq::lemma_filter_len_push(before, p, s[i]);
    Seq::lemma_filter_len_push(before, p, v);
}

} // verus!
