use vstd::prelude::*;

verus! {

/// The position of the first element of `s` that satisfies `p`, or -1.
pub open spec fn first_index<A>(s: Seq<A>, p: spec_fn(A) -> bool) -> int
    decreases s.len(),
{
    if s.len() == 0 {
        -1
    } else {
        let r = first_index(s.drop_last(), p);
        if r >= 0 {
            r
        } else if p(s.last()) {
            s.len() - 1
        } else {
            -1
        }
    }
}

/// The first match found in a prefix is the first match of the whole.
pub proof fn lemma_first_index_prefix<A>(s: Seq<A>, k: int, p: spec_fn(A) -> bool)
    requires
        0 <= k <= s.len(),
        first_index(s.take(k), p) >= 0,
    ensures
        first_index(s, p) == first_index(s.take(k), p),
    decreases s.len() - k,
{
    if k < s.len() {
        assert(s.take(k + 1).drop_last() =~= s.take(k));
        lemma_first_index_prefix(s, k + 1, p);
    } else {
        assert(s.take(k) =~= s);
    }
}

/// A first match lies inside the sequence and satisfies `p`; nothing
/// before it does; -1 means nothing does.
pub proof fn lemma_first_index_bounds<A>(s: Seq<A>, p: spec_fn(A) -> bool)
    ensures
        -1 <= first_index(s, p) < s.len(),
        first_index(s, p) >= 0 ==> p(s[first_index(s, p)]),
        first_index(s, p) < 0 ==> forall|j: int| 0 <= j < s.len() ==> !p(#[trigger] s[j]),
        forall|j: int| 0 <= j < first_index(s, p) ==> !p(#[trigger] s[j]),
    decreases s.len(),
{
    if s.len() > 0 {
        let t = s.drop_last();
        lemma_first_index_bounds(t, p);
        assert forall|j: int| 0 <= j < t.len() implies t[j] == s[j] by {}
    }
}

/// Scanning: no match in the first `i` elements and one at `i` makes `i`
/// the first match.
pub proof fn lemma_first_index_found<A>(s: Seq<A>, i: int, p: spec_fn(A) -> bool)
    requires
        0 <= i < s.len(),
        first_index(s.take(i), p) == -1,
        p(s[i]),
    ensures
        first_index(s, p) == i,
{
    assert(s.take(i + 1).drop_last() =~= s.take(i));
    assert(s.take(i + 1).last() == s[i]);
    lemma_first_index_prefix(s, i + 1, p);
}

/// Scanning: no match in the first `i` elements nor at `i`.
pub proof fn lemma_first_index_miss<A>(s: Seq<A>, i: int, p: spec_fn(A) -> bool)
    requires
        0 <= i < s.len(),
        first_index(s.take(i), p) == -1,
        !p(s[i]),
    ensures
        first_index(s.take(i + 1), p) == -1,
{
    assert(s.take(i + 1).drop_last() =~= s.take(i));
    assert(s.take(i + 1).last() == s[i]);
}

/// Scanning the whole sequence without a match.
pub proof fn lemma_first_index_none<A>(s: Seq<A>, p: spec_fn(A) -> bool)
    requires
        first_index(s.take(s.len() as int), p) == -1,
    ensures
        first_index(s, p) == -1,
{
    assert(s.take(s.len() as int) =~= s);
}

/// The position of the last element of `s` that satisfies `p`, or -1.
pub open spec fn last_index<A>(s: Seq<A>, p: spec_fn(A) -> bool) -> int
    decreases s.len(),
{
    if s.len() == 0 {
        -1
    } else if p(s.last()) {
        s.len() - 1
    } else {
        last_index(s.drop_last(), p)
    }
}

/// A last match lies inside the sequence and satisfies `p`.
pub proof fn lemma_last_index_bounds<A>(s: Seq<A>, p: spec_fn(A) -> bool)
    ensures
        -1 <= last_index(s, p) < s.len(),
        last_index(s, p) >= 0 ==> p(s[last_index(s, p)]),
    decreases s.len(),
{
    if s.len() > 0 && !p(s.last()) {
        lemma_last_index_bounds(s.drop_last(), p);
    }
}

/// Scanning one more element for the last match.
pub proof fn lemma_last_index_step<A>(s: Seq<A>, i: int, p: spec_fn(A) -> bool)
    requires
        0 <= i < s.len(),
    ensures
        last_index(s.take(i + 1), p) == (if p(s[i]) { i } else { last_index(s.take(i), p) }),
{
    assert(s.take(i + 1).drop_last() =~= s.take(i));
    assert(s.take(i + 1).last() == s[i]);
}

} // verus!
