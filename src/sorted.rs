//! Strictly increasing vectors of process identifiers, used as ordered sets

use crate::process::Pid;
use vstd::prelude::*;

verus! {

/// Whether a sequence of identifiers is strictly increasing.
pub open spec fn increasing(s: Seq<Pid>) -> bool {
    forall|i: int, j: int| 0 <= i < j < s.len() ==> s[i] < s[j]
}

/// Two strictly increasing sequences that hold the same identifiers are equal.
pub proof fn lemma_increasing_unique(a: Seq<Pid>, b: Seq<Pid>)
    requires
        increasing(a),
        increasing(b),
        a.to_set() == b.to_set(),
    ensures
        a == b,
    decreases a.len(),
{
    if a.len() == 0 {
        if b.len() > 0 {
            assert(b.to_set().contains(b[0]));
        }
    } else if b.len() == 0 {
        assert(a.to_set().contains(a[0]));
    } else {
        // The first element of each is the least element of the common set.
        assert(a.to_set().contains(a[0]));
        assert(b.to_set().contains(b[0]));
        let i = choose|i: int| 0 <= i < b.len() && b[i] == a[0];
        let j = choose|j: int| 0 <= j < a.len() && a[j] == b[0];
        assert(a[0] == b[0]) by {
            if i > 0 {
                assert(b[0] < b[i]);
                assert(j > 0 ==> a[0] < a[j]);
            }
        }
        let ta = a.drop_first();
        let tb = b.drop_first();
        assert(ta.to_set() =~= tb.to_set()) by {
            assert forall|x: Pid| ta.to_set().contains(x) implies tb.to_set().contains(x) by {
                let k = choose|k: int| 0 <= k < ta.len() && ta[k] == x;
                assert(a[k + 1] == x);
                assert(b.to_set().contains(x));
                let m = choose|m: int| 0 <= m < b.len() && b[m] == x;
                assert(m != 0);
                assert(tb[m - 1] == x);
            }
            assert forall|x: Pid| tb.to_set().contains(x) implies ta.to_set().contains(x) by {
                let k = choose|k: int| 0 <= k < tb.len() && tb[k] == x;
                assert(b[k + 1] == x);
                assert(a.to_set().contains(x));
                let m = choose|m: int| 0 <= m < a.len() && a[m] == x;
                assert(m != 0);
                assert(ta[m - 1] == x);
            }
        }
        lemma_increasing_unique(ta, tb);
        assert(a =~= seq![a[0]] + ta);
        assert(b =~= seq![b[0]] + tb);
    }
}

/// Insert an identifier in a strictly increasing vector, keeping it so.
///
/// Returns whether the identifier was absent, as an ordered set does.
pub fn insert_sorted(v: &mut Vec<Pid>, x: Pid) -> (inserted: bool)
    requires
        increasing(old(v)@),
    ensures
        increasing(final(v)@),
        final(v)@.to_set() == old(v)@.to_set().insert(x),
        inserted == !old(v)@.contains(x),
        !inserted ==> final(v)@ == old(v)@,
{
    let mut i: usize = 0;
    while i < v.len() && v[i] < x
        invariant
            0 <= i <= v.len(),
            forall|k: int| 0 <= k < i ==> v@[k] < x,
        decreases v.len() - i,
    {
        i = i + 1;
    }
    if i < v.len() && v[i] == x {
        return false;
    }
    proof {
        assert forall|k: int| i <= k < v.len() implies x < v@[k] by {
            if k > i {
                assert(v@[i as int] < v@[k]);
            }
        }
        assert(!v@.contains(x)) by {
            if v@.contains(x) {
                let k = choose|k: int| 0 <= k < v.len() && v@[k] == x;
                assert(k < i || k >= i);
            }
        }
    }
    let ghost before = v@;
    v.insert(i, x);
    proof {
        assert(v@.to_set() =~= before.to_set().insert(x)) by {
            assert forall|y: Pid| v@.to_set().contains(y) implies before.to_set().insert(x).contains(y) by {
                let k = choose|k: int| 0 <= k < v@.len() && v@[k] == y;
                if k < i {
                    assert(before[k] == y);
                } else if k > i {
                    assert(before[k - 1] == y);
                }
            }
            assert forall|y: Pid| before.to_set().insert(x).contains(y) implies v@.to_set().contains(y) by {
                if y == x {
                    assert(v@[i as int] == x);
                } else {
                    let k = choose|k: int| 0 <= k < before.len() && before[k] == y;
                    if k < i {
                        assert(v@[k] == y);
                    } else {
                        assert(v@[k + 1] == y);
                    }
                }
            }
        }
    }
    true
}

} // verus!
