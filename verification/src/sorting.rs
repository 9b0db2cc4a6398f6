//! Stable ordering of records by a rank that each record type defines.
use vstd::prelude::*;

verus! {

/// Records that can be ranked against each other.
pub trait Ranked: Sized {
    /// Whether `self` sorts strictly before `other`.
    spec fn precedes(self, other: Self) -> bool;

    /// Computes `precedes`.
    fn ranks_before(&self, other: &Self) -> (b: bool)
        ensures
            b == self.precedes(*other),
    ;
}

/// Neither record sorts before the other.
pub open spec fn tied<T: Ranked>(a: T, b: T) -> bool {
    !a.precedes(b) && !b.precedes(a)
}

/// On the records of `s`, `precedes` is asymmetric, and a record that sorts
/// before `a` also sorts before every record that `a` does not follow. Both hold
/// of every strict weak order.
pub open spec fn rank_consistent<T: Ranked>(s: Seq<T>) -> bool {
    &&& forall|i: int, j: int|
        0 <= i < s.len() && 0 <= j < s.len() && #[trigger] s[i].precedes(s[j]) ==> !s[j].precedes(
            s[i],
        )
    &&& forall|x: int, a: int, b: int|
        0 <= x < s.len() && 0 <= a < s.len() && 0 <= b < s.len() && #[trigger] s[x].precedes(s[a])
            && !#[trigger] s[b].precedes(s[a]) ==> s[x].precedes(s[b])
}

/// `output` holds the records of `input` rearranged: `output[k]` is
/// `input[p[k]]`, and no record of `input` is used twice.
pub open spec fn is_permutation<T>(p: Seq<int>, input: Seq<T>, output: Seq<T>) -> bool {
    &&& p.len() == input.len()
    &&& output.len() == input.len()
    &&& forall|k: int| 0 <= k < p.len() ==> 0 <= #[trigger] p[k] < input.len()
    &&& forall|k: int| 0 <= k < p.len() ==> output[k] == input[#[trigger] p[k]]
    &&& forall|k1: int, k2: int| 0 <= k1 < k2 < p.len() ==> #[trigger] p[k1] != #[trigger] p[k2]
}

/// No record follows one that it sorts before.
pub open spec fn is_sorted<T: Ranked>(s: Seq<T>) -> bool {
    forall|k1: int, k2: int| 0 <= k1 < k2 < s.len() ==> !#[trigger] s[k2].precedes(#[trigger] s[k1])
}

/// Tied records keep the order they had in the input.
pub open spec fn is_stable<T: Ranked>(p: Seq<int>, s: Seq<T>) -> bool {
    forall|k1: int, k2: int|
        0 <= k1 < k2 < s.len() && tied(#[trigger] s[k1], #[trigger] s[k2]) ==> p[k1] < p[k2]
}

/// `output` is `input` in stable rank order.
pub open spec fn stable_sort_of<T: Ranked>(input: Seq<T>, output: Seq<T>) -> bool {
    exists|p: Seq<int>| is_permutation(p, input, output) && is_sorted(output) && is_stable(p, output)
}

/// `output` is `input` rearranged.
pub open spec fn permutation_of<T>(input: Seq<T>, output: Seq<T>) -> bool {
    exists|p: Seq<int>| is_permutation(p, input, output)
}

/// Sorts records by rank, keeping tied records in their input order. When the
/// rank is not consistent on the input, the records are only rearranged.
pub fn stable_sort<T: Ranked>(input: Vec<T>) -> (out: Vec<T>)
    ensures
        permutation_of(input@, out@),
        rank_consistent(input@) ==> stable_sort_of(input@, out@),
{
    let ghost orig = input@;
    let ghost ordered = rank_consistent(orig);
    let n = input.len();
    let mut rest = input;
    let mut out: Vec<T> = Vec::new();
    let ghost mut p: Seq<int> = Seq::empty();
    let mut i: usize = 0;
    while i < n
        invariant
            i <= n,
            n == orig.len(),
            ordered == rank_consistent(orig),
            rest@ == orig.subrange(i as int, n as int),
            out@.len() == i,
            p.len() == i,
            forall|k: int| 0 <= k < i ==> 0 <= #[trigger] p[k] < i,
            forall|k: int| 0 <= k < i ==> out@[k] == orig[#[trigger] p[k]],
            forall|k1: int, k2: int| 0 <= k1 < k2 < i ==> #[trigger] p[k1] != #[trigger] p[k2],
            ordered ==> is_sorted(out@),
            ordered ==> is_stable(p, out@),
        decreases n - i,
    {
        let x = rest.remove(0);
        assert(x == orig[i as int]);
        assert(rest@ == orig.subrange(i + 1, n as int));
        let mut pos: usize = 0;
        while pos < out.len() && !x.ranks_before(&out[pos])
            invariant
                pos <= out@.len(),
                forall|k: int| 0 <= k < pos ==> !x.precedes(#[trigger] out@[k]),
            decreases out.len() - pos,
        {
            pos = pos + 1;
        }
        proof {
            if ordered && pos < out@.len() {
                assert(x.precedes(out@[pos as int]));
                assert forall|k: int| pos <= k < out@.len() implies x.precedes(
                    #[trigger] out@[k],
                ) by {
                    if k > pos {
                        assert(!out@[k].precedes(out@[pos as int]));
                        assert(orig[i as int].precedes(orig[p[pos as int]]));
                        assert(!orig[p[k]].precedes(orig[p[pos as int]]));
                    }
                }
            }
        }
        let ghost old_out = out@;
        let ghost old_p = p;
        out.insert(pos, x);
        proof {
            p = p.insert(pos as int, i as int);
            assert forall|k: int| 0 <= k < i + 1 implies out@[k] == orig[#[trigger] p[k]] by {
                if k < pos {
                    assert(out@[k] == old_out[k]);
                    assert(p[k] == old_p[k]);
                } else if k > pos {
                    assert(out@[k] == old_out[k - 1]);
                    assert(p[k] == old_p[k - 1]);
                }
            }
            assert forall|k: int| 0 <= k < i + 1 implies 0 <= #[trigger] p[k] < i + 1 by {
                if k < pos {
                    assert(p[k] == old_p[k]);
                } else if k > pos {
                    assert(p[k] == old_p[k - 1]);
                }
            }
            assert forall|k1: int, k2: int| 0 <= k1 < k2 < i + 1 implies #[trigger] p[k1]
                != #[trigger] p[k2] by {
                if k1 != pos && k2 != pos {
                    let a = if k1 < pos {
                        k1
                    } else {
                        k1 - 1
                    };
                    let b = if k2 < pos {
                        k2
                    } else {
                        k2 - 1
                    };
                    assert(p[k1] == old_p[a]);
                    assert(p[k2] == old_p[b]);
                } else if k1 == pos {
                    assert(p[k2] == old_p[k2 - 1]);
                } else {
                    assert(p[k1] == old_p[k1]);
                }
            }
            if ordered {
                assert forall|k1: int, k2: int| 0 <= k1 < k2 < out@.len() implies !#[trigger] out@[k2].precedes(
                    #[trigger] out@[k1],
                ) by {
                    if k1 != pos && k2 != pos {
                        let a = if k1 < pos {
                            k1
                        } else {
                            k1 - 1
                        };
                        let b = if k2 < pos {
                            k2
                        } else {
                            k2 - 1
                        };
                        assert(out@[k1] == old_out[a]);
                        assert(out@[k2] == old_out[b]);
                    } else if k1 == pos {
                        assert(out@[k2] == old_out[k2 - 1]);
                        assert(x.precedes(old_out[k2 - 1]));
                        assert(orig[i as int].precedes(orig[old_p[k2 - 1]]));
                    } else {
                        assert(out@[k1] == old_out[k1]);
                    }
                }
                assert forall|k1: int, k2: int|
                    0 <= k1 < k2 < out@.len() && tied(
                        #[trigger] out@[k1],
                        #[trigger] out@[k2],
                    ) implies p[k1] < p[k2] by {
                    if k1 != pos && k2 != pos {
                        let a = if k1 < pos {
                            k1
                        } else {
                            k1 - 1
                        };
                        let b = if k2 < pos {
                            k2
                        } else {
                            k2 - 1
                        };
                        assert(out@[k1] == old_out[a]);
                        assert(out@[k2] == old_out[b]);
                        assert(p[k1] == old_p[a]);
                        assert(p[k2] == old_p[b]);
                    } else if k1 == pos {
                        assert(out@[k2] == old_out[k2 - 1]);
                        assert(x.precedes(old_out[k2 - 1]));
                    } else {
                        assert(p[k1] == old_p[k1]);
                    }
                }
            }
        }
        i = i + 1;
    }
    assert(is_permutation(p, orig, out@));
    proof {
        if ordered {
            assert(is_sorted(out@) && is_stable(p, out@));
        }
    }
    out
}

} // verus!
