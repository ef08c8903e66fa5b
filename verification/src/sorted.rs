//! Strictly increasing sequences of integers as listings of finite sets.
use vstd::prelude::*;

verus! {

/// `s` is strictly increasing.
pub open spec fn increasing(s: Seq<usize>) -> bool {
    forall|i: int, j: int| 0 <= i < j < s.len() ==> s[i] < s[j]
}

/// The elements of `s` in increasing order, each once.
pub open spec fn sorted_listing(s: Set<usize>) -> Seq<usize> {
    choose|q: Seq<usize>| increasing(q) && q.to_set() == s
}

/// Two increasing sequences with the same elements are equal.
pub proof fn lemma_listing_unique(a: Seq<usize>, b: Seq<usize>)
    requires
        increasing(a),
        increasing(b),
        a.to_set() == b.to_set(),
    ensures
        a == b,
    decreases a.len(),
{
    if a.len() == 0 {
        if b.len() > 0 {
            assert(b.to_set().contains(b[0]));
        }
        assert(a =~= b);
    } else {
        assert(a.to_set().contains(a[0]));
        assert(b.len() > 0);
        assert(b.to_set().contains(b[0]));
        let ia = choose|i: int| 0 <= i < a.len() && a[i] == b[0];
        let ib = choose|i: int| 0 <= i < b.len() && b[i] == a[0];
        assert(a[0] <= b[0]) by {
            if ia > 0 {
                assert(a[0] < a[ia]);
            }
        }
        assert(b[0] <= a[0]) by {
            if ib > 0 {
                assert(b[0] < b[ib]);
            }
        }
        let a1 = a.drop_first();
        let b1 = b.drop_first();
        assert(a1.to_set() =~= b1.to_set()) by {
            assert forall|x: usize| a1.to_set().contains(x) implies b1.to_set().contains(x) by {
                let i = choose|i: int| 0 <= i < a1.len() && a1[i] == x;
                assert(a.to_set().contains(x)) by {
                    assert(a[i + 1] == x);
                }
                let j = choose|j: int| 0 <= j < b.len() && b[j] == x;
                assert(j > 0) by {
                    assert(a[0] < a[i + 1]);
                }
                assert(b1[j - 1] == x);
            }
            assert forall|x: usize| b1.to_set().contains(x) implies a1.to_set().contains(x) by {
                let i = choose|i: int| 0 <= i < b1.len() && b1[i] == x;
                assert(b.to_set().contains(x)) by {
                    assert(b[i + 1] == x);
                }
                let j = choose|j: int| 0 <= j < a.len() && a[j] == x;
                assert(j > 0) by {
                    assert(b[0] < b[i + 1]);
                }
                assert(a1[j - 1] == x);
            }
        }
        lemma_listing_unique(a1, b1);
        assert(a =~= b) by {
            assert forall|k: int| 0 <= k < a.len() implies a[k] == b[k] by {
                if k > 0 {
                    assert(a[k] == a1[k - 1]);
                    assert(b[k] == b1[k - 1]);
                }
            }
        }
    }
}

/// An increasing sequence is the sorted listing of its elements.
pub proof fn lemma_listing_of(q: Seq<usize>)
    requires
        increasing(q),
    ensures
        sorted_listing(q.to_set()) == q,
{
    let r = sorted_listing(q.to_set());
    assert(increasing(r) && r.to_set() == q.to_set());
    lemma_listing_unique(r, q);
}

/// The elements of `s.push(x)` are those of `s` and `x`.
pub proof fn lemma_push_to_set(s: Seq<usize>, x: usize)
    ensures
        s.push(x).to_set() == s.to_set().insert(x),
{
    assert forall|y: usize| #![auto] s.push(x).to_set().contains(y) <==> s.to_set().insert(x).contains(y) by {
        if s.push(x).to_set().contains(y) {
            let k = choose|k: int| 0 <= k < s.push(x).len() && s.push(x)[k] == y;
            if k < s.len() {
                assert(s[k] == y);
            }
        }
        if s.to_set().contains(y) {
            let k = choose|k: int| 0 <= k < s.len() && s[k] == y;
            assert(s.push(x)[k] == y);
        }
        if y == x {
            assert(s.push(x)[s.len() as int] == x);
        }
    }
    assert(s.push(x).to_set() =~= s.to_set().insert(x));
}

/// Inserts `x` into the increasing vector `v`, keeping it increasing and
/// adding nothing when `x` is already there.
pub fn sorted_insert(v: &mut Vec<usize>, x: usize)
    requires
        increasing(old(v)@),
    ensures
        increasing(final(v)@),
        final(v)@.to_set() == old(v)@.to_set().insert(x),
        final(v)@.len() <= old(v)@.len() + 1,
{
    let mut i: usize = 0;
    while i < v.len() && v[i] < x
        invariant
            i <= v.len(),
            forall|k: int| 0 <= k < i ==> v@[k] < x,
        decreases v.len() - i,
    {
        i += 1;
    }
    if i < v.len() && v[i] == x {
        proof {
            assert(v@.to_set().insert(x) =~= v@.to_set());
        }
        return;
    }
    let ghost before = v@;
    v.insert(i, x);
    proof {
        assert(v@ =~= before.take(i as int).push(x) + before.skip(i as int));
        assert forall|a: int, b: int| 0 <= a < b < v@.len() implies v@[a] < v@[b] by {
            if b < i {
            } else if b == i {
            } else if a < i {
                assert(before[a] < x);
                assert(x < before[i as int] || i == before.len());
                if i < before.len() {
                    assert(before[i as int] <= before[b - 1]) by {
                        if b - 1 > i {
                            assert(before[i as int] < before[b - 1]);
                        }
                    }
                }
            } else if a == i {
                assert(x < before[i as int]);
                if b - 1 > i {
                    assert(before[i as int] < before[b - 1]);
                }
            } else {
                assert(before[a - 1] < before[b - 1]);
            }
        }
        assert forall|y: usize| #![auto] v@.to_set().contains(y) <==> before.to_set().insert(x).contains(y) by {
            if v@.to_set().contains(y) {
                let k = choose|k: int| 0 <= k < v@.len() && v@[k] == y;
                if k < i {
                    assert(before[k] == y);
                } else if k > i {
                    assert(before[k - 1] == y);
                }
            }
            if before.to_set().contains(y) {
                let k = choose|k: int| 0 <= k < before.len() && before[k] == y;
                if k < i {
                    assert(v@[k] == y);
                } else {
                    assert(v@[k + 1] == y);
                }
            }
            if y == x {
                assert(v@[i as int] == x);
            }
        }
        assert(v@.to_set() =~= before.to_set().insert(x));
    }
}

} // verus!
