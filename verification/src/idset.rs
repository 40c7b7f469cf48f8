use vstd::prelude::*;

verus! {

/// Whether `x` occurs in `v`.
pub fn contains_id(v: &Vec<u64>, x: u64) -> (r: bool)
    ensures
        r == v@.contains(x),
{
    let mut i: usize = 0;
    while i < v.len()
        invariant
            i <= v@.len(),
            forall|j: int| 0 <= j < i ==> v@[j] != x,
        decreases v@.len() - i,
    {
        if v[i] == x {
            return true;
        }
        i = i + 1;
    }
    false
}

/// Adds `x` to `v` unless it is there already.
pub fn insert_id(v: &mut Vec<u64>, x: u64)
    ensures
        final(v)@ == (if old(v)@.contains(x) { old(v)@ } else { old(v)@.push(x) }),
{
    if !contains_id(v, x) {
        v.push(x);
    }
}

/// Whether a name with view `x` occurs among `v`.
pub fn contains_name(v: &Vec<String>, x: &String) -> (r: bool)
    ensures
        r == names(v@).contains(x@),
{
    let mut i: usize = 0;
    while i < v.len()
        invariant
            i <= v@.len(),
            forall|j: int| 0 <= j < i ==> v@[j]@ != x@,
        decreases v@.len() - i,
    {
        if v[i] == *x {
            proof {
                assert(names(v@)[i as int] == x@);
            }
            return true;
        }
        i = i + 1;
    }
    proof {
        if names(v@).contains(x@) {
            let k = choose|k: int| 0 <= k < names(v@).len() && names(v@)[k] == x@;
            assert(v@[k]@ == x@);
        }
    }
    false
}

/// The character sequences of `v`'s strings.
pub open spec fn names(v: Seq<String>) -> Seq<Seq<char>> {
    v.map_values(|s: String| s@)
}

/// Whether a name differs from `x`.
pub open spec fn other_name(x: Seq<char>) -> spec_fn(Seq<char>) -> bool {
    |n: Seq<char>| n != x
}

/// Removes every occurrence of the name `x` from `v`; the others keep
/// their order.
pub fn remove_name(v: &mut Vec<String>, x: &String)
    ensures
        names(final(v)@) == names(old(v)@).filter(other_name(x@)),
{
    let ghost src = v@;
    let mut rest: Vec<String> = Vec::new();
    std::mem::swap(&mut rest, v);
    let mut kept: Vec<String> = Vec::new();
    let ghost mut i: int = 0;
    proof {
        assert(names(kept@) =~= names(src).take(0).filter(other_name(x@)));
    }
    while rest.len() > 0
        invariant
            0 <= i <= src.len(),
            rest@ == src.skip(i),
            names(kept@) == names(src).take(i).filter(other_name(x@)),
        decreases rest.len(),
    {
        let n = rest.remove(0);
        proof {
            assert(n == src[i]);
            assert(src.skip(i + 1) =~= src.skip(i).drop_first());
            reveal(Seq::filter);
            assert(names(src).take(i + 1).drop_last() =~= names(src).take(i));
            assert(names(src).take(i + 1).last() == n@);
        }
        if n != *x {
            let ghost before = kept@;
            kept.push(n);
            proof {
                assert(names(kept@) =~= names(before).push(n@));
            }
        }
        proof {
            i = i + 1;
        }
    }
    proof {
        assert(names(src).take(i) =~= names(src));
    }
    *v = kept;
}

} // verus!
