//! Stable sorting of row indices under a strict weak order.
use vstd::prelude::*;

verus! {

/// A strict weak order on row indices ("comes before").
pub trait IndexOrder {
    /// The index names a row.
    spec fn valid(&self, a: usize) -> bool;

    /// Row `a` comes before row `b`.
    spec fn before(&self, a: usize, b: usize) -> bool;

    /// Decides `before`.
    fn comes_before(&self, a: usize, b: usize) -> (r: bool)
        requires
            self.valid(a),
            self.valid(b),
        ensures
            r == self.before(a, b),
    ;

    proof fn lemma_irreflexive(&self, a: usize)
        ensures
            !self.before(a, a),
    ;

    proof fn lemma_transitive(&self, a: usize, b: usize, c: usize)
        requires
            self.before(a, b),
            self.before(b, c),
        ensures
            self.before(a, c),
    ;

    /// Incomparability is transitive: `a < b` puts any `c` above `a` or
    /// below `b`.
    proof fn lemma_weak(&self, a: usize, b: usize, c: usize)
        requires
            self.before(a, b),
        ensures
            self.before(a, c) || self.before(c, b),
    ;
}

/// No later element comes before an earlier one.
pub open spec fn sorted_under<T: IndexOrder>(ord: &T, s: Seq<usize>) -> bool {
    forall|i: int, j: int| 0 <= i < j < s.len() ==> !ord.before(#[trigger] s[j], #[trigger] s[i])
}

/// Elements that neither comes before the other keep their input order.
pub open spec fn stable_under<T: IndexOrder>(ord: &T, input: Seq<usize>, s: Seq<usize>) -> bool {
    forall|i: int, j: int|
        0 <= i < j < s.len() && !ord.before(#[trigger] s[i], #[trigger] s[j]) ==> exists|p: int, q: int|
            0 <= p < q < input.len() && input[p] == s[i] && input[q] == s[j]
}

/// `s` holds exactly the elements of `input`, as many of them.
pub open spec fn same_elements(input: Seq<usize>, s: Seq<usize>) -> bool {
    &&& s.len() == input.len()
    &&& forall|i: int| 0 <= i < s.len() ==> #[trigger] input.contains(s[i])
    &&& forall|p: int| 0 <= p < input.len() ==> #[trigger] s.contains(input[p])
}

/// Sorts row indices stably (insertion sort): the result holds the same
/// indices, ordered by `ord`, with equivalent rows in input order.
pub fn stable_sort<T: IndexOrder>(ord: &T, input: &Vec<usize>) -> (r: Vec<usize>)
    requires
        forall|i: int| 0 <= i < input@.len() ==> ord.valid(#[trigger] input@[i]),
        input@.no_duplicates(),
    ensures
        sorted_under(ord, r@),
        stable_under(ord, input@, r@),
        same_elements(input@, r@),
        forall|i: int| 0 <= i < r@.len() ==> ord.valid(#[trigger] r@[i]),
{
    let mut out: Vec<usize> = Vec::new();
    // position in the input of each element of `out`
    let ghost mut pos: Seq<int> = Seq::empty();
    let mut k: usize = 0;
    while k < input.len()
        invariant
            k <= input.len(),
            forall|i: int| 0 <= i < input@.len() ==> ord.valid(#[trigger] input@[i]),
            input@.no_duplicates(),
            out@.len() == k,
            pos.len() == k,
            forall|i: int| 0 <= i < k ==> 0 <= #[trigger] pos[i] < k && input@[pos[i]] == out@[i],
            forall|i: int, j: int| 0 <= i < j < k ==> #[trigger] pos[i] != #[trigger] pos[j],
            sorted_under(ord, out@),
            forall|i: int| 0 <= i < out@.len() ==> ord.valid(#[trigger] out@[i]),
            forall|i: int, j: int|
                0 <= i < j < k && !ord.before(#[trigger] out@[i], #[trigger] out@[j]) ==> pos[i] < pos[j],
        decreases input.len() - k,
    {
        let x = input[k];
        let mut p: usize = 0;
        while p < out.len() && !ord.comes_before(x, out[p])
            invariant
                p <= out.len(),
                ord.valid(x),
                forall|i: int| 0 <= i < out@.len() ==> ord.valid(#[trigger] out@[i]),
                forall|i: int| 0 <= i < p ==> !ord.before(x, #[trigger] out@[i]),
            decreases out.len() - p,
        {
            p += 1;
        }
        let ghost before_out = out@;
        let ghost before_pos = pos;
        out.insert(p, x);
        proof {
            pos = before_pos.insert(p as int, k as int);
            let after = out@;
            assert forall|i: int| 0 <= i < k + 1 implies 0 <= #[trigger] pos[i] < k + 1 && input@[pos[i]]
                == after[i] by {
                if i < p {
                    assert(pos[i] == before_pos[i] && after[i] == before_out[i]);
                } else if i > p {
                    assert(pos[i] == before_pos[i - 1] && after[i] == before_out[i - 1]);
                }
            }
            assert forall|i: int| 0 <= i < after.len() implies ord.valid(#[trigger] after[i]) by {
                if i < p {
                    assert(after[i] == before_out[i]);
                } else if i > p {
                    assert(after[i] == before_out[i - 1]);
                }
            }
            assert forall|i: int, j: int| 0 <= i < j < k + 1 implies #[trigger] pos[i] != #[trigger] pos[j] by {
                if i < p && j < p {
                } else if i < p && j == p {
                } else if i < p {
                    assert(pos[j] == before_pos[j - 1]);
                } else if i == p {
                    assert(pos[j] == before_pos[j - 1]);
                } else {
                    assert(pos[i] == before_pos[i - 1] && pos[j] == before_pos[j - 1]);
                }
            }
            assert forall|i: int, j: int| 0 <= i < j < after.len() implies !ord.before(
                #[trigger] after[j],
                #[trigger] after[i],
            ) by {
                if j < p {
                    assert(after[i] == before_out[i] && after[j] == before_out[j]);
                } else if j == p {
                    assert(after[i] == before_out[i]);
                } else if i == p {
                    assert(after[j] == before_out[j - 1]);
                    if ord.before(after[j], x) {
                        // x comes before out[p] and out[p] is not after out[j]
                        ord.lemma_transitive(after[j], x, before_out[p as int]);
                        if j - 1 > p {
                            assert(!ord.before(before_out[j - 1], before_out[p as int]));
                        } else {
                            ord.lemma_irreflexive(before_out[p as int]);
                        }
                    }
                } else if i < p {
                    assert(after[i] == before_out[i] && after[j] == before_out[j - 1]);
                } else {
                    assert(after[i] == before_out[i - 1] && after[j] == before_out[j - 1]);
                }
            }
            assert forall|i: int, j: int|
                0 <= i < j < k + 1 && !ord.before(#[trigger] after[i], #[trigger] after[j]) implies pos[i]
                < pos[j] by {
                if j < p {
                    assert(after[i] == before_out[i] && after[j] == before_out[j]);
                    assert(pos[i] == before_pos[i] && pos[j] == before_pos[j]);
                } else if j == p {
                    assert(pos[i] == before_pos[i]);
                } else if i == p {
                    // x comes before out[p], and out[j - 1] is not before out[p]
                    assert(after[j] == before_out[j - 1]);
                    ord.lemma_weak(x, before_out[p as int], before_out[j - 1]);
                    if j - 1 > p {
                        assert(!ord.before(before_out[j - 1], before_out[p as int]));
                    }
                } else if i < p {
                    assert(after[i] == before_out[i] && after[j] == before_out[j - 1]);
                    assert(pos[i] == before_pos[i] && pos[j] == before_pos[j - 1]);
                } else {
                    assert(after[i] == before_out[i - 1] && after[j] == before_out[j - 1]);
                    assert(pos[i] == before_pos[i - 1] && pos[j] == before_pos[j - 1]);
                }
            }
        }
        k += 1;
    }
    proof {
        let n = input@.len();
        assert forall|i: int, j: int|
            0 <= i < j < out@.len() && !ord.before(#[trigger] out@[i], #[trigger] out@[j]) implies exists|
            p: int,
            q: int,
        | 0 <= p < q < input@.len() && input@[p] == out@[i] && input@[q] == out@[j] by {
            assert(input@[pos[i]] == out@[i] && input@[pos[j]] == out@[j]);
        }
        assert forall|i: int| 0 <= i < out@.len() implies #[trigger] input@.contains(out@[i]) by {
            assert(input@[pos[i]] == out@[i]);
        }
        // `pos` is injective on 0..n into 0..n, hence onto
        assert forall|q: int| 0 <= q < n implies #[trigger] out@.contains(input@[q]) by {
            lemma_injective_onto(pos, n as int, q);
            let i = choose|i: int| 0 <= i < n && pos[i] == q;
            assert(out@[i] == input@[q]);
        }
    }
    out
}

/// The indices rise strictly from first to last.
pub open spec fn increasing(s: Seq<usize>) -> bool {
    forall|i: int, j: int| 0 <= i < j < s.len() ==> #[trigger] s[i] < #[trigger] s[j]
}

/// Sorting a strictly rising input stably leaves the rows that neither
/// comes before the other in ascending index order.
pub proof fn lemma_stable_from_increasing<T: IndexOrder>(ord: &T, input: Seq<usize>, s: Seq<usize>)
    requires
        stable_under(ord, input, s),
        increasing(input),
    ensures
        forall|i: int, j: int|
            0 <= i < j < s.len() && !ord.before(#[trigger] s[i], #[trigger] s[j]) ==> s[i] < s[j],
{
    assert forall|i: int, j: int|
        0 <= i < j < s.len() && !ord.before(#[trigger] s[i], #[trigger] s[j]) implies s[i] < s[j] by {
        let (p, q) = choose|p: int, q: int|
            0 <= p < q < input.len() && input[p] == s[i] && input[q] == s[j];
        assert(input[p] < input[q]);
    }
}

/// An injective map of `0..n` into `0..n` reaches every value.
proof fn lemma_injective_onto(pos: Seq<int>, n: int, q: int)
    requires
        pos.len() == n,
        0 <= q < n,
        forall|i: int| 0 <= i < n ==> 0 <= #[trigger] pos[i] < n,
        forall|i: int, j: int| 0 <= i < j < n ==> #[trigger] pos[i] != #[trigger] pos[j],
    ensures
        exists|i: int| 0 <= i < n && pos[i] == q,
{
    let sp = pos.to_set();
    let full = Set::new(|v: int| 0 <= v < n);
    assert(pos.no_duplicates()) by {
        assert forall|i: int, j: int| 0 <= i < pos.len() && 0 <= j < pos.len() && i != j implies pos[i]
            != pos[j] by {
            if i < j {
            } else {
            }
        }
    }
    pos.unique_seq_to_set();
    assert(sp.subset_of(full)) by {
        assert forall|v: int| sp.contains(v) implies full.contains(v) by {
            let i = choose|i: int| 0 <= i < pos.len() && pos[i] == v;
        }
    }
    vstd::set_lib::lemma_int_range(0, n);
    assert(full =~= vstd::set_lib::set_int_range(0, n));
    if !sp.contains(q) {
        assert(sp.subset_of(full.remove(q)));
        vstd::set_lib::lemma_len_subset(sp, full.remove(q));
    }
}

} // verus!
