use nlprule::atom::{AndAtom, Atom, FalseAtom, NotAtom, OffsetAtom, OrAtom, TrueAtom};

fn leaf(offset: isize) -> Atom {
    Atom::OffsetAtom(OffsetAtom::new(Atom::TrueAtom(TrueAtom {}), offset))
}

#[test]
fn and_of_nothing_is_true() {
    let r = AndAtom::and(vec![]);
    assert!(matches!(r, Atom::TrueAtom(_)));
}

#[test]
fn or_of_nothing_is_false() {
    let r = OrAtom::or(vec![]);
    assert!(matches!(r, Atom::FalseAtom(_)));
}

#[test]
fn and_of_one_unwraps() {
    let r = AndAtom::and(vec![leaf(7)]);
    match r {
        Atom::OffsetAtom(o) => assert_eq!(o.offset, 7),
        _ => panic!("single child should come back unwrapped"),
    }
}

#[test]
fn or_of_one_unwraps() {
    let r = OrAtom::or(vec![leaf(3)]);
    match r {
        Atom::OffsetAtom(o) => assert_eq!(o.offset, 3),
        _ => panic!("single child should come back unwrapped"),
    }
}

#[test]
fn and_drops_true_children() {
    let r = AndAtom::and(vec![Atom::TrueAtom(TrueAtom {}), leaf(1), Atom::TrueAtom(TrueAtom {})]);
    match r {
        Atom::OffsetAtom(o) => assert_eq!(o.offset, 1),
        _ => panic!("identity children should be dropped"),
    }
}

#[test]
fn and_keeps_two_survivors_wrapped() {
    let r = AndAtom::and(vec![leaf(1), Atom::TrueAtom(TrueAtom {}), leaf(2)]);
    match r {
        Atom::AndAtom(a) => {
            assert_eq!(a.atoms.len(), 2);
            assert!(matches!(a.atoms[0], Atom::OffsetAtom(_)));
        }
        _ => panic!("two survivors should stay a conjunction"),
    }
}

#[test]
fn and_does_not_drop_false() {
    let r = AndAtom::and(vec![Atom::FalseAtom(FalseAtom {})]);
    assert!(matches!(r, Atom::FalseAtom(_)));
}

#[test]
fn or_drops_false_children() {
    let r = OrAtom::or(vec![Atom::FalseAtom(FalseAtom {}), leaf(4)]);
    match r {
        Atom::OffsetAtom(o) => assert_eq!(o.offset, 4),
        _ => panic!("identity children should be dropped"),
    }
}

#[test]
fn or_keeps_two_survivors_wrapped() {
    let r = OrAtom::or(vec![leaf(1), leaf(2), Atom::FalseAtom(FalseAtom {})]);
    match r {
        Atom::OrAtom(a) => assert_eq!(a.atoms.len(), 2),
        _ => panic!("two survivors should stay a disjunction"),
    }
}

#[test]
fn not_of_true_is_false() {
    let r = NotAtom::not(Atom::TrueAtom(TrueAtom {}));
    assert!(matches!(r, Atom::FalseAtom(_)));
}

#[test]
fn not_of_false_is_true() {
    let r = NotAtom::not(Atom::FalseAtom(FalseAtom {}));
    assert!(matches!(r, Atom::TrueAtom(_)));
}

#[test]
fn not_of_leaf_wraps_once() {
    let r = NotAtom::not(leaf(5));
    match r {
        Atom::NotAtom(n) => match *n.atom {
            Atom::OffsetAtom(o) => assert_eq!(o.offset, 5),
            _ => panic!("negation should wrap the original atom"),
        },
        _ => panic!("negating a leaf should build a single negation"),
    }
}

#[test]
fn offset_wraps_any_atom() {
    let o = OffsetAtom::new(Atom::FalseAtom(FalseAtom {}), -2);
    assert_eq!(o.offset, -2);
    assert!(matches!(*o.atom, Atom::FalseAtom(_)));
}
