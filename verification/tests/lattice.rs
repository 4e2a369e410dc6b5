use grid_rules::element::{
    has_meet, is_leq, same_state, CellType, CornerType, Gcd, LinkType, Mask,
};
use std::cmp::Ordering;

const CELLS: [CellType; 5] =
    [CellType::Empty, CellType::Zero, CellType::One, CellType::Two, CellType::Three];

const LINKS: [LinkType; 3] = [LinkType::LMaybe, LinkType::Link, LinkType::Unlink];

const CORNERS: [CornerType; 7] = [
    CornerType::CMaybe,
    CornerType::CZero,
    CornerType::COne,
    CornerType::CTwo,
    CornerType::Even,
    CornerType::Less,
    CornerType::Greater,
];

fn check_laws<T: Mask + Gcd + PartialEq + std::fmt::Debug>(states: &[T]) {
    for a in states {
        assert_eq!(a.gcd(a), *a);
        assert_eq!(T::from_mask(a.to_mask()), *a);
        assert_ne!(a.to_mask(), 0);
        for b in states {
            assert_eq!(same_state(a, b), a == b);
            assert_eq!(has_meet(a, b), a.to_mask() & b.to_mask() != 0);
            assert_eq!(is_leq(a, b), a.to_mask() & b.to_mask() == a.to_mask());
            if !has_meet(a, b) {
                continue;
            }
            let ab = a.gcd(b);
            assert_eq!(ab, b.gcd(a));
            assert!(is_leq(&ab, a));
            assert!(is_leq(&ab, b));
            assert_eq!(ab.to_mask(), a.to_mask() & b.to_mask());
            for c in states {
                if has_meet(b, c) && has_meet(a, &b.gcd(c)) {
                    assert!(has_meet(&ab, c));
                    assert_eq!(a.gcd(&b.gcd(c)), ab.gcd(c));
                }
            }
        }
    }
}

#[test]
fn lattice_laws_hold_for_cells() {
    check_laws(&CELLS);
}

#[test]
fn lattice_laws_hold_for_links() {
    check_laws(&LINKS);
}

#[test]
fn lattice_laws_hold_for_corners() {
    check_laws(&CORNERS);
}

#[test]
fn masks_are_the_bit_sets_of_the_domains() {
    assert_eq!(CELLS.map(|c| c.to_mask()), [15, 1, 2, 4, 8]);
    assert_eq!(LINKS.map(|l| l.to_mask()), [3, 1, 2]);
    assert_eq!(CORNERS.map(|c| c.to_mask()), [7, 1, 2, 4, 5, 3, 6]);
}

#[test]
fn meet_of_unknown_and_label_is_the_label() {
    assert_eq!(CellType::Empty.gcd(&CellType::Two), CellType::Two);
    assert_eq!(CellType::Three.gcd(&CellType::Empty), CellType::Three);
    assert_eq!(LinkType::LMaybe.gcd(&LinkType::Unlink), LinkType::Unlink);
    assert_eq!(CornerType::Even.gcd(&CornerType::Less), CornerType::CZero);
    assert_eq!(CornerType::Even.gcd(&CornerType::Greater), CornerType::CTwo);
    assert_eq!(CornerType::Less.gcd(&CornerType::Greater), CornerType::COne);
    assert_eq!(CornerType::CMaybe.gcd(&CornerType::Greater), CornerType::Greater);
}

#[test]
fn states_without_a_common_value_have_no_meet() {
    assert!(!has_meet(&CellType::Zero, &CellType::One));
    assert!(!has_meet(&LinkType::Link, &LinkType::Unlink));
    assert!(!has_meet(&CornerType::CZero, &CornerType::Greater));
    assert!(!has_meet(&CornerType::COne, &CornerType::Even));
    assert!(has_meet(&CornerType::CTwo, &CornerType::Even));
}

#[test]
fn order_is_inclusion() {
    assert!(CellType::Two <= CellType::Empty);
    assert!(CellType::Two < CellType::Empty);
    assert!(CellType::Empty > CellType::Two);
    assert!(CellType::Empty >= CellType::Empty);
    assert!(!(CellType::Two <= CellType::One));
    assert!(!(CellType::Two >= CellType::One));
    assert!(LinkType::Link < LinkType::LMaybe);
    assert!(CornerType::CZero < CornerType::Even);
    assert!(CornerType::Even < CornerType::CMaybe);
    assert_eq!(PartialOrd::partial_cmp(&CornerType::Even, &CornerType::Less), None);
    assert_eq!(PartialOrd::partial_cmp(&CornerType::Even, &CornerType::Even), Some(Ordering::Equal));
    assert_eq!(PartialOrd::partial_cmp(&CornerType::CTwo, &CornerType::Even), Some(Ordering::Less));
    assert_eq!(
        PartialOrd::partial_cmp(&CornerType::Greater, &CornerType::COne),
        Some(Ordering::Greater)
    );
    assert_eq!(Mask::partial_cmp(&LinkType::Link, &LinkType::Unlink), None);
    assert_eq!(Mask::partial_cmp(&LinkType::LMaybe, &LinkType::Unlink), Some(Ordering::Greater));
}
