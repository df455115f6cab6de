//! Small helpers over sequences and vectors of ids: uniqueness, membership,
//! positional search, and order-keeping removal.

use vstd::prelude::*;

verus! {

/// No value occurs twice in the sequence.
pub open spec fn u64s_unique(s: Seq<u64>) -> bool {
    forall|i: int, j: int| 0 <= i < j < s.len() ==> s[i] != s[j]
}

/// The sequence with every occurrence of `x` dropped, order kept.
pub open spec fn remove_value(s: Seq<u64>, x: u64) -> Seq<u64>
    decreases s.len(),
{
    if s.len() == 0 {
        Seq::empty()
    } else if s.last() == x {
        remove_value(s.drop_last(), x)
    } else {
        remove_value(s.drop_last(), x).push(s.last())
    }
}

pub proof fn lemma_remove_value_push(s: Seq<u64>, e: u64, x: u64)
    ensures
        remove_value(s.push(e), x) == (if e == x {
            remove_value(s, x)
        } else {
            remove_value(s, x).push(e)
        }),
{
    assert(s.push(e).drop_last() =~= s);
}

/// Membership in a sequence relates to membership before dropping the last
/// element.
pub proof fn lemma_contains_split(s: Seq<u64>, y: u64)
    requires
        s.len() > 0,
    ensures
        s.contains(y) <==> (s.drop_last().contains(y) || s.last() == y),
{
    if s.contains(y) {
        let i = choose|i: int| 0 <= i < s.len() && s[i] == y;
        if i < s.len() - 1 {
            assert(s.drop_last()[i] == y);
        }
    }
    if s.drop_last().contains(y) {
        let i = choose|i: int| 0 <= i < s.drop_last().len() && s.drop_last()[i] == y;
        assert(s[i] == y);
    }
    if s.last() == y {
        assert(s[s.len() - 1] == y);
    }
}

/// Removal keeps exactly the other values.
pub proof fn lemma_remove_value_contains(s: Seq<u64>, x: u64, y: u64)
    ensures
        remove_value(s, x).contains(y) <==> (s.contains(y) && y != x),
    decreases s.len(),
{
    if s.len() == 0 {
        assert(!s.contains(y));
        assert(!remove_value(s, x).contains(y));
    } else {
        lemma_remove_value_contains(s.drop_last(), x, y);
        lemma_contains_split(s, y);
        let t = remove_value(s.drop_last(), x);
        if s.last() != x {
            assert(remove_value(s, x) == t.push(s.last()));
            lemma_contains_split(t.push(s.last()), y);
            assert(t.push(s.last()).drop_last() =~= t);
        }
    }
}

/// Removal never introduces a duplicate.
pub proof fn lemma_remove_value_unique(s: Seq<u64>, x: u64)
    requires
        u64s_unique(s),
    ensures
        u64s_unique(remove_value(s, x)),
    decreases s.len(),
{
    if s.len() > 0 {
        assert(forall|i: int, j: int|
            0 <= i < j < s.drop_last().len() ==> s.drop_last()[i] != s.drop_last()[j]);
        lemma_remove_value_unique(s.drop_last(), x);
        if s.last() != x {
            let t = remove_value(s.drop_last(), x);
            lemma_remove_value_contains(s.drop_last(), x, s.last());
            assert(!s.drop_last().contains(s.last())) by {
                if s.drop_last().contains(s.last()) {
                    let i = choose|i: int|
                        0 <= i < s.drop_last().len() && s.drop_last()[i] == s.last();
                    assert(s[i] == s[s.len() - 1]);
                }
            }
            assert(!t.contains(s.last()));
            assert(forall|i: int, j: int|
                0 <= i < j < t.push(s.last()).len() ==> t.push(s.last())[i] != t.push(
                    s.last(),
                )[j]) by {
                assert(forall|i: int| 0 <= i < t.len() ==> t.push(s.last())[i] == t[i]);
                assert(forall|i: int| #![auto] 0 <= i < t.len() ==> t[i] != s.last()) by {
                    assert(forall|i: int| 0 <= i < t.len() ==> t.contains(#[trigger] t[i]));
                }
            }
        }
    }
}

/// Pushing a fresh value keeps a sequence duplicate-free.
pub proof fn lemma_unique_push(s: Seq<u64>, e: u64)
    requires
        u64s_unique(s),
        !s.contains(e),
    ensures
        u64s_unique(s.push(e)),
{
    let t = s.push(e);
    assert forall|i: int, j: int| 0 <= i < j < t.len() implies t[i] != t[j] by {
        if j == s.len() {
            assert(t[i] == s[i]);
            if s[i] == e {
                assert(s.contains(e));
            }
        }
    }
}

/// Whether `x` occurs in the vector.
pub fn contains_u64(v: &Vec<u64>, x: u64) -> (r: bool)
    ensures
        r == v@.contains(x),
{
    for i in 0..v.len()
        invariant
            forall|k: int| 0 <= k < i ==> v@[k] != x,
    {
        if v[i] == x {
            proof {
                assert(v@[i as int] == x);
            }
            return true;
        }
    }
    false
}

/// A fresh vector with the same contents.
pub fn copy_u64_vec(v: &Vec<u64>) -> (r: Vec<u64>)
    ensures
        r@ == v@,
{
    let mut r: Vec<u64> = Vec::new();
    for i in 0..v.len()
        invariant
            r@ == v@.subrange(0, i as int),
    {
        proof {
            assert(v@.subrange(0, i as int + 1) =~= v@.subrange(0, i as int).push(v@[i as int]));
        }
        r.push(v[i]);
    }
    proof {
        assert(v@.subrange(0, v@.len() as int) =~= v@);
    }
    r
}

/// A fresh vector with every occurrence of `x` dropped, order kept.
pub fn remove_u64(v: &Vec<u64>, x: u64) -> (r: Vec<u64>)
    ensures
        r@ == remove_value(v@, x),
{
    let mut r: Vec<u64> = Vec::new();
    for i in 0..v.len()
        invariant
            r@ == remove_value(v@.subrange(0, i as int), x),
    {
        proof {
            assert(v@.subrange(0, i as int + 1) =~= v@.subrange(0, i as int).push(v@[i as int]));
            lemma_remove_value_push(v@.subrange(0, i as int), v@[i as int], x);
        }
        if v[i] != x {
            r.push(v[i]);
        }
    }
    proof {
        assert(v@.subrange(0, v@.len() as int) =~= v@);
    }
    r
}


/// Membership after a push.
pub proof fn lemma_contains_push(s: Seq<u64>, e: u64, x: u64)
    ensures
        s.push(e).contains(x) <==> (s.contains(x) || e == x),
{
    lemma_contains_split(s.push(e), x);
    assert(s.push(e).drop_last() =~= s);
}


/// Whether the vector holds no duplicate.
pub fn check_unique_u64(v: &Vec<u64>) -> (r: bool)
    ensures
        r == u64s_unique(v@),
{
    let mut seen: Vec<u64> = Vec::new();
    for i in 0..v.len()
        invariant
            seen@ == v@.subrange(0, i as int),
            u64s_unique(v@.subrange(0, i as int)),
    {
        if contains_u64(&seen, v[i]) {
            proof {
                let k = choose|k: int| 0 <= k < seen@.len() && seen@[k] == v@[i as int];
                assert(v@[k] == v@[i as int]);
                assert(!u64s_unique(v@));
            }
            return false;
        }
        seen.push(v[i]);
        proof {
            assert(v@.subrange(0, i as int + 1) =~= v@.subrange(0, i as int).push(v@[i as int]));
            lemma_unique_push(v@.subrange(0, i as int), v@[i as int]);
        }
    }
    proof {
        assert(v@.subrange(0, v@.len() as int) =~= v@);
    }
    true
}

} // verus!
