use vstd::prelude::*;
use crate::atom::Atom;

verus! {

/// Token-repetition bounds for one part of a composition. A quantifier
/// is well formed only when `max >= min`; the constructor rejects the
/// other inputs instead of building an invalid value.
#[derive(Clone, Copy, Debug)]
pub struct Quantifier {
    pub min: usize,
    pub max: usize,
}

impl Quantifier {
    pub open spec fn wf(self) -> bool {
        self.min <= self.max
    }

    /// Builds a quantifier, failing exactly when `max < min`.
    pub fn new(min: usize, max: usize) -> (r: Option<Quantifier>)
        ensures
            r is Some <==> min <= max,
            r is Some ==> r->Some_0 == (Quantifier { min, max }) && r->Some_0.wf(),
    {
        if max >= min {
            Some(Quantifier { min, max })
        } else {
            None
        }
    }
}

/// One position in a composition: an atom guarding it, how many tokens
/// it may consume, and whether those tokens are exposed as a capture
/// group.
pub struct Part {
    pub atom: Atom,
    pub quantifier: Quantifier,
    pub visible: bool,
}

/// How many of the first `upto` parts are visible.
pub open spec fn count_visible(parts: Seq<Part>, upto: int) -> int
    decreases upto,
{
    if upto <= 0 {
        0
    } else {
        count_visible(parts, upto - 1) + if parts[upto - 1].visible {
            1int
        } else {
            0int
        }
    }
}

/// Every part from index `i` on is optional: a candidate match that has
/// reached `i` may legally stop there.
pub open spec fn suffix_optional(parts: Seq<Part>, i: int) -> bool {
    forall|j: int| i <= j < parts.len() ==> (#[trigger] parts[j]).quantifier.min == 0
}

/// An ordered sequence of quantified, optionally capturing parts, with
/// the derived capture-group table and early-stop analysis, built once
/// and immutable afterwards.
///
/// `group_ids_to_idx` maps each capture-group id to a position: id 0 is
/// reserved for the whole match and maps to 0; the ids 1, 2, ... are
/// assigned to the visible parts in order, group id g mapping to the
/// part's index plus one.
pub struct Composition {
    pub parts: Vec<Part>,
    pub group_ids_to_idx: Vec<usize>,
    pub can_stop_mask: Vec<bool>,
}

impl Composition {
    /// Derives the capture-group table in one forward walk and the
    /// early-stop mask in one backward walk.
    pub fn new(parts: Vec<Part>) -> (r: Composition)
        ensures
            r.parts == parts,
            r.group_ids_to_idx@.len() == 1 + count_visible(parts@, parts@.len() as int),
            r.group_ids_to_idx@[0] == 0,
            forall|i: int|
                0 <= i < parts@.len() && (#[trigger] parts@[i]).visible
                    ==> r.group_ids_to_idx@[1 + count_visible(parts@, i)] as int == i + 1,
            r.can_stop_mask@.len() == parts@.len(),
            forall|i: int|
                0 <= i < parts@.len() ==> r.can_stop_mask@[i] == suffix_optional(parts@, i),
    {
        let n = parts.len();
        let mut group_ids_to_idx: Vec<usize> = Vec::new();
        group_ids_to_idx.push(0);
        let mut i: usize = 0;
        while i < n
            invariant
                i <= n,
                n == parts@.len(),
                group_ids_to_idx@.len() == 1 + count_visible(parts@, i as int),
                group_ids_to_idx@[0] == 0,
                forall|i2: int|
                    0 <= i2 < i && (#[trigger] parts@[i2]).visible ==> group_ids_to_idx@[1
                        + count_visible(parts@, i2)] as int == i2 + 1,
            decreases n - i,
        {
            let ghost prev = group_ids_to_idx@;
            if parts[i].visible {
                group_ids_to_idx.push(i + 1);
            }
            proof {
                lemma_count_visible_bounds(parts@, i as int);
                assert(prev.len() >= 1);
                assert(group_ids_to_idx@[0] == prev[0]);
                assert(count_visible(parts@, i + 1) == count_visible(parts@, i as int) + if parts@[i as int].visible {
                    1int
                } else {
                    0int
                });
                assert forall|i2: int|
                    0 <= i2 < i + 1 && (#[trigger] parts@[i2]).visible implies group_ids_to_idx@[1
                    + count_visible(parts@, i2)] as int == i2 + 1 by {
                    lemma_count_visible_bounds(parts@, i2);
                    if i2 < i {
                        lemma_count_visible_mono(parts@, i2 + 1, i as int);
                    }
                    if i2 == i {
                        assert(parts@[i as int].visible);
                        assert(group_ids_to_idx@ == prev.push((i + 1) as usize));
                        assert(group_ids_to_idx@[1 + count_visible(parts@, i2)] == (i + 1) as usize);
                    } else {
                        assert(prev[1 + count_visible(parts@, i2)] as int == i2 + 1);
                        assert(1 + count_visible(parts@, i2) < prev.len());
                    }
                }
            }
            i += 1;
        }
        let mut can_stop_mask: Vec<bool> = vec![false; n];
        let mut suffix_ok = true;
        let mut k: usize = n;
        while k > 0
            invariant
                k <= n,
                n == parts@.len(),
                can_stop_mask@.len() == n,
                suffix_ok == suffix_optional(parts@, k as int),
                forall|j: int| k <= j < n ==> can_stop_mask@[j] == suffix_optional(parts@, j),
            decreases k,
        {
            let idx = k - 1;
            let here = parts[idx].quantifier.min == 0;
            proof {
                if here && suffix_ok {
                    assert forall|j: int| idx <= j < n implies (#[trigger] parts@[j]).quantifier.min
                        == 0 by {
                        if j > idx {
                            assert(parts@[j].quantifier.min == 0);
                        }
                    }
                }
                if suffix_optional(parts@, idx as int) {
                    assert(parts@[idx as int].quantifier.min == 0);
                }
            }
            suffix_ok = suffix_ok && here;
            can_stop_mask.set(idx, suffix_ok);
            k = idx;
        }
        Composition { parts, group_ids_to_idx, can_stop_mask }
    }
}

/// The visible count over a prefix is at least zero and at most the
/// prefix's length.
proof fn lemma_count_visible_bounds(parts: Seq<Part>, upto: int)
    requires
        0 <= upto,
    ensures
        0 <= count_visible(parts, upto) <= upto,
    decreases upto,
{
    if upto > 0 {
        lemma_count_visible_bounds(parts, upto - 1);
    }
}

/// The visible count never shrinks as the prefix grows.
proof fn lemma_count_visible_mono(parts: Seq<Part>, a: int, b: int)
    requires
        0 <= a <= b,
    ensures
        count_visible(parts, a) <= count_visible(parts, b),
    decreases b - a,
{
    if a < b {
        lemma_count_visible_mono(parts, a, b - 1);
    }
}

} // verus!
