use nlprule::atom::{Atom, TrueAtom};
use nlprule::composition::{Composition, Part, Quantifier};

fn part(min: usize, max: usize, visible: bool) -> Part {
    Part {
        atom: Atom::TrueAtom(TrueAtom {}),
        quantifier: Quantifier::new(min, max).unwrap(),
        visible,
    }
}

#[test]
fn quantifier_rejects_max_below_min() {
    assert!(Quantifier::new(3, 2).is_none());
    assert!(Quantifier::new(1, 0).is_none());
}

#[test]
fn quantifier_boundary_cases_are_valid() {
    let q = Quantifier::new(2, 2).unwrap();
    assert_eq!(q.min, 2);
    assert_eq!(q.max, 2);
    let q = Quantifier::new(0, 5).unwrap();
    assert_eq!(q.min, 0);
    assert_eq!(q.max, 5);
}

#[test]
fn group_ids_skip_invisible_parts() {
    let c = Composition::new(vec![part(1, 1, true), part(1, 1, false), part(1, 1, true)]);
    // Group 0 is the whole match; group 1 is part 0, group 2 is part 2,
    // each stored as the part index plus one.
    assert_eq!(c.group_ids_to_idx, vec![0, 1, 3]);
}

#[test]
fn group_ids_empty_composition() {
    let c = Composition::new(vec![]);
    assert_eq!(c.group_ids_to_idx, vec![0]);
    assert_eq!(c.can_stop_mask.len(), 0);
}

#[test]
fn can_stop_mask_suffix_analysis() {
    let c = Composition::new(vec![part(1, 2, true), part(0, 1, true), part(0, 3, true)]);
    assert_eq!(c.can_stop_mask, vec![false, true, true]);

    let c = Composition::new(vec![part(0, 1, true), part(0, 1, true), part(0, 1, true)]);
    assert_eq!(c.can_stop_mask, vec![true, true, true]);

    // A non-optional part in the middle blocks every earlier stop.
    let c = Composition::new(vec![part(0, 1, true), part(1, 1, true), part(0, 1, true)]);
    assert_eq!(c.can_stop_mask, vec![false, false, true]);
}

#[test]
fn parts_are_kept_in_order() {
    let c = Composition::new(vec![part(0, 1, false), part(2, 4, true)]);
    assert_eq!(c.parts.len(), 2);
    assert_eq!(c.parts[1].quantifier.min, 2);
    assert_eq!(c.parts[1].quantifier.max, 4);
    assert!(c.parts[1].visible);
}
