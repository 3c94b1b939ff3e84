use vstd::prelude::*;
use crate::text_matcher::{PosMatcher, TextMatcher};

verus! {

/// The always-true predicate.
pub struct TrueAtom {}

/// The always-false predicate.
pub struct FalseAtom {}

/// A conjunction of at least two non-trivial children.
pub struct AndAtom {
    pub atoms: Vec<Atom>,
}

/// A disjunction of at least two non-trivial children.
pub struct OrAtom {
    pub atoms: Vec<Atom>,
}

/// The negation of a predicate.
pub struct NotAtom {
    pub atom: Box<Atom>,
}

/// A predicate re-anchored to `current_position + offset`, for lookahead
/// and lookbehind without consuming an extra part.
pub struct OffsetAtom {
    pub atom: Box<Atom>,
    pub offset: isize,
}

/// A leaf predicate over a token's text.
pub struct TextAtom {
    pub matcher: TextMatcher,
}

/// A leaf predicate over a token's part-of-speech tags.
pub struct PosAtom {
    pub matcher: PosMatcher,
}

/// A boolean predicate tree over a token and, via `Offset`, its
/// neighbours.
pub enum Atom {
    TrueAtom(TrueAtom),
    FalseAtom(FalseAtom),
    AndAtom(AndAtom),
    OrAtom(OrAtom),
    NotAtom(NotAtom),
    OffsetAtom(OffsetAtom),
    TextAtom(TextAtom),
    PosAtom(PosAtom),
}

/// The minimal normal form the smart constructors guarantee: no `And`
/// holds a `True` child, no `Or` holds a `False` child, neither holds
/// fewer than two children, and no `Not` wraps `True` or `False`.
pub open spec fn is_normalized(a: Atom) -> bool
    decreases a,
{
    match a {
        Atom::AndAtom(x) => x.atoms@.len() >= 2 && (forall|i: int|
            0 <= i < x.atoms@.len() ==> is_normalized(#[trigger] x.atoms@[i]) && !(x.atoms@[i]
                is TrueAtom)),
        Atom::OrAtom(x) => x.atoms@.len() >= 2 && (forall|i: int|
            0 <= i < x.atoms@.len() ==> is_normalized(#[trigger] x.atoms@[i]) && !(x.atoms@[i]
                is FalseAtom)),
        Atom::NotAtom(x) => is_normalized(*x.atom) && !(*x.atom is TrueAtom) && !(*x.atom
            is FalseAtom),
        Atom::OffsetAtom(x) => is_normalized(*x.atom),
        _ => true,
    }
}

/// The children that survive `and`: everything but the identity element.
pub open spec fn non_true(atoms: Seq<Atom>) -> Seq<Atom>
    decreases atoms.len(),
{
    if atoms.len() == 0 {
        Seq::empty()
    } else if atoms.last() is TrueAtom {
        non_true(atoms.drop_last())
    } else {
        non_true(atoms.drop_last()).push(atoms.last())
    }
}

/// The children that survive `or`: everything but the identity element.
pub open spec fn non_false(atoms: Seq<Atom>) -> Seq<Atom>
    decreases atoms.len(),
{
    if atoms.len() == 0 {
        Seq::empty()
    } else if atoms.last() is FalseAtom {
        non_false(atoms.drop_last())
    } else {
        non_false(atoms.drop_last()).push(atoms.last())
    }
}

/// Every survivor of `non_true` is one of the original atoms and is not
/// `True`.
pub proof fn lemma_non_true_element_of(s: Seq<Atom>, i: int)
    requires
        0 <= i < non_true(s).len(),
    ensures
        exists|j: int| 0 <= j < s.len() && s[j] == non_true(s)[i],
        !(non_true(s)[i] is TrueAtom),
    decreases s.len(),
{
    if s.len() > 0 {
        if !(s.last() is TrueAtom) && i == non_true(s).len() - 1 {
            assert(s[s.len() - 1] == non_true(s)[i]);
        } else {
            lemma_non_true_element_of(s.drop_last(), i);
            let j = choose|j: int|
                0 <= j < s.drop_last().len() && s.drop_last()[j] == non_true(s.drop_last())[i];
            assert(s[j] == non_true(s)[i]);
        }
    }
}

/// Every survivor of `non_false` is one of the original atoms and is not
/// `False`.
pub proof fn lemma_non_false_element_of(s: Seq<Atom>, i: int)
    requires
        0 <= i < non_false(s).len(),
    ensures
        exists|j: int| 0 <= j < s.len() && s[j] == non_false(s)[i],
        !(non_false(s)[i] is FalseAtom),
    decreases s.len(),
{
    if s.len() > 0 {
        if !(s.last() is FalseAtom) && i == non_false(s).len() - 1 {
            assert(s[s.len() - 1] == non_false(s)[i]);
        } else {
            lemma_non_false_element_of(s.drop_last(), i);
            let j = choose|j: int|
                0 <= j < s.drop_last().len() && s.drop_last()[j] == non_false(s.drop_last())[i];
            assert(s[j] == non_false(s)[i]);
        }
    }
}

impl AndAtom {
    /// Conjunction with construction-time normalization: `True` children
    /// are dropped; an empty conjunction is `True`; a single survivor is
    /// returned unwrapped.
    pub fn and(atoms: Vec<Atom>) -> (r: Atom)
        ensures
            non_true(atoms@).len() == 0 ==> r == Atom::TrueAtom(TrueAtom {}),
            non_true(atoms@).len() == 1 ==> r == non_true(atoms@)[0],
            non_true(atoms@).len() >= 2 ==> (r matches Atom::AndAtom(x) && x.atoms@ == non_true(
                atoms@,
            )),
            (forall|i: int| 0 <= i < atoms@.len() ==> is_normalized(#[trigger] atoms@[i]))
                ==> is_normalized(r),
    {
        let mut kept = filter_atoms(atoms, false);
        proof {
            if forall|i: int| 0 <= i < atoms@.len() ==> is_normalized(#[trigger] atoms@[i]) {
                assert forall|i: int| 0 <= i < non_true(atoms@).len() implies is_normalized(
                    #[trigger] non_true(atoms@)[i],
                ) && !(non_true(atoms@)[i] is TrueAtom) by {
                    lemma_non_true_element_of(atoms@, i);
                    let j = choose|j: int|
                        0 <= j < atoms@.len() && atoms@[j] == non_true(atoms@)[i];
                }
            }
        }
        if kept.len() == 0 {
            Atom::TrueAtom(TrueAtom {})
        } else if kept.len() == 1 {
            kept.pop().unwrap()
        } else {
            Atom::AndAtom(AndAtom { atoms: kept })
        }
    }
}

impl OrAtom {
    /// Disjunction with construction-time normalization: `False` children
    /// are dropped; an empty disjunction is `False`; a single survivor is
    /// returned unwrapped.
    pub fn or(atoms: Vec<Atom>) -> (r: Atom)
        ensures
            non_false(atoms@).len() == 0 ==> r == Atom::FalseAtom(FalseAtom {}),
            non_false(atoms@).len() == 1 ==> r == non_false(atoms@)[0],
            non_false(atoms@).len() >= 2 ==> (r matches Atom::OrAtom(x) && x.atoms@ == non_false(
                atoms@,
            )),
            (forall|i: int| 0 <= i < atoms@.len() ==> is_normalized(#[trigger] atoms@[i]))
                ==> is_normalized(r),
    {
        let mut kept = filter_atoms(atoms, true);
        proof {
            if forall|i: int| 0 <= i < atoms@.len() ==> is_normalized(#[trigger] atoms@[i]) {
                assert forall|i: int| 0 <= i < non_false(atoms@).len() implies is_normalized(
                    #[trigger] non_false(atoms@)[i],
                ) && !(non_false(atoms@)[i] is FalseAtom) by {
                    lemma_non_false_element_of(atoms@, i);
                    let j = choose|j: int|
                        0 <= j < atoms@.len() && atoms@[j] == non_false(atoms@)[i];
                }
            }
        }
        if kept.len() == 0 {
            Atom::FalseAtom(FalseAtom {})
        } else if kept.len() == 1 {
            kept.pop().unwrap()
        } else {
            Atom::OrAtom(OrAtom { atoms: kept })
        }
    }
}

impl NotAtom {
    /// Negation with construction-time simplification of the constants.
    pub fn not(atom: Atom) -> (r: Atom)
        ensures
            atom is TrueAtom ==> r == Atom::FalseAtom(FalseAtom {}),
            atom is FalseAtom ==> r == Atom::TrueAtom(TrueAtom {}),
            !(atom is TrueAtom) && !(atom is FalseAtom) ==> (r matches Atom::NotAtom(x) && *x.atom
                == atom),
            is_normalized(atom) ==> is_normalized(r),
    {
        match atom {
            Atom::TrueAtom(_) => Atom::FalseAtom(FalseAtom {}),
            Atom::FalseAtom(_) => Atom::TrueAtom(TrueAtom {}),
            x => Atom::NotAtom(NotAtom { atom: Box::new(x) }),
        }
    }
}

impl OffsetAtom {
    /// Wraps any predicate with a signed relative token index.
    pub fn new(atom: Atom, offset: isize) -> (r: OffsetAtom)
        ensures
            *r.atom == atom,
            r.offset == offset,
            is_normalized(atom) ==> is_normalized(Atom::OffsetAtom(r)),
    {
        OffsetAtom { atom: Box::new(atom), offset }
    }
}

/// Keeps the atoms that are not the identity element: `True` for a
/// conjunction (`drop_false` unset), `False` for a disjunction.
fn filter_atoms(atoms: Vec<Atom>, drop_false: bool) -> (r: Vec<Atom>)
    ensures
        !drop_false ==> r@ == non_true(atoms@),
        drop_false ==> r@ == non_false(atoms@),
{
    let mut r: Vec<Atom> = Vec::new();
    let mut iter = atoms;
    let n = iter.len();
    let ghost all = iter@;
    let mut i: usize = 0;
    while i < n
        invariant
            n == all.len(),
            i <= n,
            iter@ == all.skip(i as int),
            !drop_false ==> r@ == non_true(all.take(i as int)),
            drop_false ==> r@ == non_false(all.take(i as int)),
        decreases n - i,
    {
        let a = iter.remove(0);
        proof {
            assert(a == all[i as int]);
            assert(all.take(i + 1).drop_last() =~= all.take(i as int));
            assert(all.take(i + 1).last() == all[i as int]);
            assert(iter@ =~= all.skip(i + 1));
        }
        let keep: bool = if drop_false {
            !matches!(a, Atom::FalseAtom(_))
        } else {
            !matches!(a, Atom::TrueAtom(_))
        };
        if keep {
            r.push(a);
        }
        i += 1;
    }
    proof {
        assert(all.take(n as int) =~= all);
    }
    r
}

} // verus!
