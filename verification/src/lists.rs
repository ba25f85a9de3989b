use vstd::prelude::*;

verus! {

/// `s` with the occurrence of `x` taken out. On a sequence without
/// duplicates this is `s` with `x` removed and the order of the rest kept.
pub open spec fn without(s: Seq<i32>, x: i32) -> Seq<i32> {
    if s.contains(x) {
        s.remove(s.index_of(x))
    } else {
        s
    }
}

/// Taking `x` out of a duplicate-free sequence leaves a duplicate-free
/// sequence that holds exactly the other elements, in their old order.
pub proof fn lemma_without(s: Seq<i32>, x: i32)
    requires
        s.no_duplicates(),
    ensures
        without(s, x).no_duplicates(),
        !without(s, x).contains(x),
        forall|y: i32| y != x ==> (without(s, x).contains(y) <==> s.contains(y)),
        forall|y: i32| without(s, x).contains(y) ==> s.contains(y),
        without(s, x).len() == if s.contains(x) { s.len() - 1 } else { s.len() as int },
{
    if s.contains(x) {
        let k = s.index_of(x);
        let t = s.remove(k);
        assert(t == without(s, x));
        assert forall|i: int| 0 <= i < t.len() implies t[i] == s[if i < k { i } else { i + 1 }] by {}
        assert forall|y: i32| y != x && s.contains(y) implies t.contains(y) by {
            let j = s.index_of(y);
            if j < k {
                assert(t[j] == y);
            } else {
                assert(t[j - 1] == y);
            }
        }
        assert forall|y: i32| t.contains(y) implies s.contains(y) by {
            let j = t.index_of(y);
            assert(s[if j < k { j } else { j + 1 }] == y);
        }
    }
}

/// Appending an element that is not yet there keeps a sequence free of
/// duplicates.
pub proof fn lemma_push_fresh(s: Seq<i32>, x: i32)
    requires
        s.no_duplicates(),
        !s.contains(x),
    ensures
        s.push(x).no_duplicates(),
        forall|y: i32| s.push(x).contains(y) <==> (y == x || s.contains(y)),
{
    let t = s.push(x);
    assert forall|i: int, j: int| 0 <= i < t.len() && 0 <= j < t.len() && i != j implies t[i]
        != t[j] by {
        if i < s.len() && j < s.len() {
        } else if i < s.len() {
            assert(s.contains(s[i]));
        } else {
            assert(s.contains(s[j]));
        }
    }
    assert forall|y: i32| t.contains(y) implies (y == x || s.contains(y)) by {
        let j = t.index_of(y);
        if j < s.len() {
            assert(s[j] == y);
        }
    }
    assert forall|y: i32| (y == x || s.contains(y)) implies t.contains(y) by {
        if s.contains(y) {
            let j = s.index_of(y);
            assert(t[j] == y);
        } else {
            assert(t[s.len() as int] == x);
        }
    }
}

/// The first position at which `x` stands in `v`, if it stands there at all.
pub fn position_of(v: &Vec<i32>, x: i32) -> (r: Option<usize>)
    ensures
        match r {
            Some(i) => i < v.len() && v[i as int] == x && forall|j: int| 0 <= j < i ==> v[j] != x,
            None => !v@.contains(x),
        },
{
    let mut i: usize = 0;
    while i < v.len()
        invariant
            i <= v.len(),
            forall|j: int| 0 <= j < i ==> v[j] != x,
        decreases v.len() - i,
    {
        if v[i] == x {
            return Some(i);
        }
        i += 1;
    }
    None
}

/// Takes `x` out of a duplicate-free `v` and tells whether it was there.
pub(crate) fn remove_value(v: &mut Vec<i32>, x: i32) -> (found: bool)
    requires
        old(v)@.no_duplicates(),
    ensures
        found == old(v)@.contains(x),
        final(v)@ == without(old(v)@, x),
{
    match position_of(v, x) {
        Some(i) => {
            proof {
                let k = v@.index_of(x);
                assert(v@[i as int] == x);
                assert(v@.contains(x));
                assert(k == i);
            }
            v.remove(i);
            true
        },
        None => false,
    }
}

} // verus!
