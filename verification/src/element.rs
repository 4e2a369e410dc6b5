//! The three lattices of partial knowledge: cell labels, links and corner degrees.
//!
//! A state is the set of domain values that are still possible at a position.
//! States are ordered by inclusion, and two states are combined by intersection.

use std::cmp::Ordering;
use vstd::prelude::*;

verus! {

/// What is known of a cell's label. The domain is the labels 0 to 3.
#[derive(Clone, Copy, Debug, PartialEq, Eq, Structural)]
pub enum CellType {
    /// Any label.
    Empty,
    Zero,
    One,
    Two,
    Three,
}

/// What is known of an edge. The domain has two values: 0 stands for a linked
/// edge and 1 for an unlinked one.
#[derive(Clone, Copy, Debug, PartialEq, Eq, Structural)]
pub enum LinkType {
    /// Linked or unlinked.
    LMaybe,
    Link,
    Unlink,
}

/// What is known of the number of linked edges that meet at a corner.
/// The domain is the counts 0 to 2.
#[derive(Clone, Copy, Debug, PartialEq, Eq, Structural)]
pub enum CornerType {
    /// Any count.
    CMaybe,
    CZero,
    COne,
    CTwo,
    /// Not exactly one: zero or two.
    Even,
    /// Not exactly two: zero or one.
    Less,
    /// Not exactly zero: one or two.
    Greater,
}

impl View for CellType {
    type V = Set<nat>;

    open spec fn view(&self) -> Set<nat> {
        match self {
            CellType::Empty => set![0, 1, 2, 3],
            CellType::Zero => set![0],
            CellType::One => set![1],
            CellType::Two => set![2],
            CellType::Three => set![3],
        }
    }
}

impl View for LinkType {
    type V = Set<nat>;

    open spec fn view(&self) -> Set<nat> {
        match self {
            LinkType::LMaybe => set![0, 1],
            LinkType::Link => set![0],
            LinkType::Unlink => set![1],
        }
    }
}

impl View for CornerType {
    type V = Set<nat>;

    open spec fn view(&self) -> Set<nat> {
        match self {
            CornerType::CMaybe => set![0, 1, 2],
            CornerType::CZero => set![0],
            CornerType::COne => set![1],
            CornerType::CTwo => set![2],
            CornerType::Even => set![0, 2],
            CornerType::Less => set![0, 1],
            CornerType::Greater => set![1, 2],
        }
    }
}

/// Bit `v` of `m`, for the eight positions of a byte.
pub open spec fn bit(m: u8, v: nat) -> bool {
    v < 8 && (m >> (v as u8)) & 1 == 1
}

/// `m` is the bitmask of the set `s`: bit `v` is set exactly when `v` is in `s`.
pub open spec fn encodes(m: u8, s: Set<nat>) -> bool {
    forall|v: nat| s.contains(v) <==> #[trigger] bit(m, v)
}

/// `a` is at least as specific as `b`.
pub open spec fn leq<T: Mask>(a: T, b: T) -> bool {
    a@.subset_of(b@)
}

/// The intersection of `a` and `b` is a state of the lattice.
pub open spec fn meets<T: Mask>(a: T, b: T) -> bool {
    exists|m: T| #[trigger] m@ == a@.intersect(b@)
}

/// The state that allows exactly what both `a` and `b` allow. It is meaningful
/// where `meets(a, b)` holds.
pub open spec fn meet<T: Mask>(a: T, b: T) -> T {
    choose|m: T| #[trigger] m@ == a@.intersect(b@)
}

/// How two sets compare under inclusion.
pub open spec fn inclusion(s: Set<nat>, t: Set<nat>) -> Option<Ordering> {
    if s == t {
        Some(Ordering::Equal)
    } else if s.subset_of(t) {
        Some(Ordering::Less)
    } else if t.subset_of(s) {
        Some(Ordering::Greater)
    } else {
        None
    }
}

/// Each bit of a byte, written with a shift and a mask.
proof fn lemma_bits(x: u8)
    ensures
        bit(x, 0) == ((x >> 0) & 1 == 1),
        bit(x, 1) == ((x >> 1) & 1 == 1),
        bit(x, 2) == ((x >> 2) & 1 == 1),
        bit(x, 3) == ((x >> 3) & 1 == 1),
        bit(x, 4) == ((x >> 4) & 1 == 1),
        bit(x, 5) == ((x >> 5) & 1 == 1),
        bit(x, 6) == ((x >> 6) & 1 == 1),
        bit(x, 7) == ((x >> 7) & 1 == 1),
        forall|v: nat| v >= 8 ==> !#[trigger] bit(x, v),
{
}

/// Two masks are equal exactly when they agree on every bit.
pub proof fn lemma_mask_eq(x: u8, y: u8)
    ensures
        x == y <==> (forall|v: nat| #[trigger] bit(x, v) == bit(y, v)),
{
    lemma_bits(x);
    lemma_bits(y);
    assert((x == y) <==> (((x >> 0) & 1 == 1) == ((y >> 0) & 1 == 1) && ((x >> 1) & 1 == 1) == ((y
        >> 1) & 1 == 1) && ((x >> 2) & 1 == 1) == ((y >> 2) & 1 == 1) && ((x >> 3) & 1 == 1) == ((y
        >> 3) & 1 == 1) && ((x >> 4) & 1 == 1) == ((y >> 4) & 1 == 1) && ((x >> 5) & 1 == 1) == ((y
        >> 5) & 1 == 1) && ((x >> 6) & 1 == 1) == ((y >> 6) & 1 == 1) && ((x >> 7) & 1 == 1) == ((y
        >> 7) & 1 == 1))) by (bit_vector);
    if forall|v: nat| #[trigger] bit(x, v) == bit(y, v) {
        assert(bit(x, 0) == bit(y, 0));
        assert(bit(x, 1) == bit(y, 1));
        assert(bit(x, 2) == bit(y, 2));
        assert(bit(x, 3) == bit(y, 3));
        assert(bit(x, 4) == bit(y, 4));
        assert(bit(x, 5) == bit(y, 5));
        assert(bit(x, 6) == bit(y, 6));
        assert(bit(x, 7) == bit(y, 7));
    }
}

/// The bits of `x & y` are those set in both `x` and `y`.
pub proof fn lemma_mask_and(x: u8, y: u8)
    ensures
        forall|v: nat| #[trigger] bit(x & y, v) == (bit(x, v) && bit(y, v)),
{
    let z = x & y;
    lemma_bits(x);
    lemma_bits(y);
    lemma_bits(z);
    assert(z == x & y ==> (((z >> 0) & 1 == 1) == ((x >> 0) & 1 == 1 && (y >> 0) & 1 == 1) && ((z
        >> 1) & 1 == 1) == ((x >> 1) & 1 == 1 && (y >> 1) & 1 == 1) && ((z >> 2) & 1 == 1) == ((x
        >> 2) & 1 == 1 && (y >> 2) & 1 == 1) && ((z >> 3) & 1 == 1) == ((x >> 3) & 1 == 1 && (y
        >> 3) & 1 == 1) && ((z >> 4) & 1 == 1) == ((x >> 4) & 1 == 1 && (y >> 4) & 1 == 1) && ((z
        >> 5) & 1 == 1) == ((x >> 5) & 1 == 1 && (y >> 5) & 1 == 1) && ((z >> 6) & 1 == 1) == ((x
        >> 6) & 1 == 1 && (y >> 6) & 1 == 1) && ((z >> 7) & 1 == 1) == ((x >> 7) & 1 == 1 && (y
        >> 7) & 1 == 1))) by (bit_vector);
    assert forall|v: nat| #[trigger] bit(z, v) == (bit(x, v) && bit(y, v)) by {
        if v < 8 {
            assert(v == 0 || v == 1 || v == 2 || v == 3 || v == 4 || v == 5 || v == 6 || v == 7);
        }
    }
}

/// A mask is zero exactly when none of its bits is set.
pub proof fn lemma_mask_zero(x: u8)
    ensures
        x == 0 <==> (forall|v: nat| !#[trigger] bit(x, v)),
{
    lemma_mask_eq(x, 0);
    lemma_bits(0);
    assert((0u8 >> 0) & 1 == 0 && (0u8 >> 1) & 1 == 0 && (0u8 >> 2) & 1 == 0 && (0u8 >> 3) & 1 == 0
        && (0u8 >> 4) & 1 == 0 && (0u8 >> 5) & 1 == 0 && (0u8 >> 6) & 1 == 0 && (0u8 >> 7) & 1
        == 0) by (bit_vector);
    assert forall|v: nat| !#[trigger] bit(0, v) by {
        if v < 8 {
            assert(v == 0 || v == 1 || v == 2 || v == 3 || v == 4 || v == 5 || v == 6 || v == 7);
        }
    }
}

/// Inclusion and equality of two sets, read off their masks.
pub proof fn lemma_encoded_order(mx: u8, my: u8, s: Set<nat>, t: Set<nat>)
    requires
        encodes(mx, s),
        encodes(my, t),
    ensures
        s == t <==> mx == my,
        s.subset_of(t) <==> mx & my == mx,
        encodes(mx & my, s.intersect(t)),
        s.intersect(t) == Set::<nat>::empty() <==> mx & my == 0,
{
    lemma_mask_eq(mx, my);
    lemma_mask_eq(mx & my, mx);
    lemma_mask_and(mx, my);
    lemma_mask_zero(mx & my);
    if mx == my {
        assert forall|v: nat| s.contains(v) == t.contains(v) by {
            assert(bit(mx, v) == bit(my, v));
        }
        assert(s =~= t);
    }
    if mx & my == mx {
        assert forall|v: nat| s.contains(v) implies t.contains(v) by {
            assert(bit(mx & my, v));
        }
    }
    if s.subset_of(t) {
        assert forall|v: nat| #[trigger] bit(mx & my, v) == bit(mx, v) by {
            assert(s.contains(v) ==> t.contains(v));
        }
    }
    if mx & my == 0 {
        assert forall|v: nat| !s.intersect(t).contains(v) by {
            assert(!bit(mx & my, v));
        }
        assert(s.intersect(t) =~= Set::<nat>::empty());
    }
    if s.intersect(t) == Set::<nat>::empty() {
        assert forall|v: nat| !#[trigger] bit(mx & my, v) by {
            assert(!s.intersect(t).contains(v));
        }
    }
}

/// A lattice of states that is stored as bitmasks over its domain.
pub trait Mask: Sized + Copy + View<V = Set<nat>> {
    /// The bitmask of the state: bit `v` is set exactly when the state allows `v`.
    fn to_mask(&self) -> (m: u8)
        ensures
            encodes(m, self@),
    ;

    /// The state with the given bitmask.
    fn from_mask(mask: u8) -> (s: Self)
        requires
            exists|x: Self| encodes(mask, #[trigger] x@),
        ensures
            encodes(mask, s@),
    ;

    /// No state is empty, and different states allow different sets.
    proof fn lemma_states(a: Self, b: Self)
        ensures
            a@ != Set::<nat>::empty(),
            a@ == b@ ==> a == b,
    ;

    /// The intersection of two states is empty or again a state.
    proof fn lemma_closed(a: Self, b: Self)
        ensures
            a@.intersect(b@) == Set::<nat>::empty() || exists|m: Self|
                #[trigger] m@ == a@.intersect(b@),
    ;

    /// Compares two states by inclusion: `Less` means strictly more specific.
    fn partial_cmp(&self, other: &Self) -> (r: Option<Ordering>)
        ensures
            r == inclusion(self@, other@),
    {
        let mask = self.to_mask();
        let other_mask = other.to_mask();
        proof {
            lemma_encoded_order(mask, other_mask, self@, other@);
            lemma_encoded_order(other_mask, mask, other@, self@);
            assert(mask & other_mask == other_mask & mask) by (bit_vector);
        }
        if mask == other_mask {
            return Some(Ordering::Equal);
        }
        if mask & other_mask == mask {
            return Some(Ordering::Less);
        }
        if mask & other_mask == other_mask {
            return Some(Ordering::Greater);
        }
        None
    }
}

/// The bits of the masks that the three lattices use.
proof fn lemma_small_masks()
    ensures
        forall|v: nat| #[trigger] bit(1, v) <==> v == 0,
        forall|v: nat| #[trigger] bit(2, v) <==> v == 1,
        forall|v: nat| #[trigger] bit(3, v) <==> v == 0 || v == 1,
        forall|v: nat| #[trigger] bit(4, v) <==> v == 2,
        forall|v: nat| #[trigger] bit(5, v) <==> v == 0 || v == 2,
        forall|v: nat| #[trigger] bit(6, v) <==> v == 1 || v == 2,
        forall|v: nat| #[trigger] bit(7, v) <==> v == 0 || v == 1 || v == 2,
        forall|v: nat| #[trigger] bit(8, v) <==> v == 3,
        forall|v: nat| #[trigger] bit(15, v) <==> v == 0 || v == 1 || v == 2 || v == 3,
{
    lemma_bits(1);
    assert((1u8 >> 0) & 1 == 1 && (1u8 >> 1) & 1 == 0 && (1u8 >> 2) & 1 == 0
        && (1u8 >> 3) & 1 == 0 && (1u8 >> 4) & 1 == 0 && (1u8 >> 5) & 1 == 0
        && (1u8 >> 6) & 1 == 0 && (1u8 >> 7) & 1 == 0) by (bit_vector);
    lemma_bits(2);
    assert((2u8 >> 0) & 1 == 0 && (2u8 >> 1) & 1 == 1 && (2u8 >> 2) & 1 == 0
        && (2u8 >> 3) & 1 == 0 && (2u8 >> 4) & 1 == 0 && (2u8 >> 5) & 1 == 0
        && (2u8 >> 6) & 1 == 0 && (2u8 >> 7) & 1 == 0) by (bit_vector);
    lemma_bits(3);
    assert((3u8 >> 0) & 1 == 1 && (3u8 >> 1) & 1 == 1 && (3u8 >> 2) & 1 == 0
        && (3u8 >> 3) & 1 == 0 && (3u8 >> 4) & 1 == 0 && (3u8 >> 5) & 1 == 0
        && (3u8 >> 6) & 1 == 0 && (3u8 >> 7) & 1 == 0) by (bit_vector);
    lemma_bits(4);
    assert((4u8 >> 0) & 1 == 0 && (4u8 >> 1) & 1 == 0 && (4u8 >> 2) & 1 == 1
        && (4u8 >> 3) & 1 == 0 && (4u8 >> 4) & 1 == 0 && (4u8 >> 5) & 1 == 0
        && (4u8 >> 6) & 1 == 0 && (4u8 >> 7) & 1 == 0) by (bit_vector);
    lemma_bits(5);
    assert((5u8 >> 0) & 1 == 1 && (5u8 >> 1) & 1 == 0 && (5u8 >> 2) & 1 == 1
        && (5u8 >> 3) & 1 == 0 && (5u8 >> 4) & 1 == 0 && (5u8 >> 5) & 1 == 0
        && (5u8 >> 6) & 1 == 0 && (5u8 >> 7) & 1 == 0) by (bit_vector);
    lemma_bits(6);
    assert((6u8 >> 0) & 1 == 0 && (6u8 >> 1) & 1 == 1 && (6u8 >> 2) & 1 == 1
        && (6u8 >> 3) & 1 == 0 && (6u8 >> 4) & 1 == 0 && (6u8 >> 5) & 1 == 0
        && (6u8 >> 6) & 1 == 0 && (6u8 >> 7) & 1 == 0) by (bit_vector);
    lemma_bits(7);
    assert((7u8 >> 0) & 1 == 1 && (7u8 >> 1) & 1 == 1 && (7u8 >> 2) & 1 == 1
        && (7u8 >> 3) & 1 == 0 && (7u8 >> 4) & 1 == 0 && (7u8 >> 5) & 1 == 0
        && (7u8 >> 6) & 1 == 0 && (7u8 >> 7) & 1 == 0) by (bit_vector);
    lemma_bits(8);
    assert((8u8 >> 0) & 1 == 0 && (8u8 >> 1) & 1 == 0 && (8u8 >> 2) & 1 == 0
        && (8u8 >> 3) & 1 == 1 && (8u8 >> 4) & 1 == 0 && (8u8 >> 5) & 1 == 0
        && (8u8 >> 6) & 1 == 0 && (8u8 >> 7) & 1 == 0) by (bit_vector);
    lemma_bits(15);
    assert((15u8 >> 0) & 1 == 1 && (15u8 >> 1) & 1 == 1 && (15u8 >> 2) & 1 == 1
        && (15u8 >> 3) & 1 == 1 && (15u8 >> 4) & 1 == 0 && (15u8 >> 5) & 1 == 0
        && (15u8 >> 6) & 1 == 0 && (15u8 >> 7) & 1 == 0) by (bit_vector);
}

impl Mask for CellType {
    fn to_mask(&self) -> (m: u8) {
        proof {
            lemma_small_masks();
        }
        match self {
            CellType::Empty => 15,
            CellType::Zero => 1,
            CellType::One => 2,
            CellType::Two => 4,
            CellType::Three => 8,
        }
    }

    fn from_mask(mask: u8) -> (s: Self) {
        proof {
            lemma_small_masks();
            lemma_mask_eq(mask, 15);
            lemma_mask_eq(mask, 1);
            lemma_mask_eq(mask, 2);
            lemma_mask_eq(mask, 4);
            lemma_mask_eq(mask, 8);
        }
        match mask {
            15 => CellType::Empty,
            1 => CellType::Zero,
            2 => CellType::One,
            4 => CellType::Two,
            8 => CellType::Three,
            _ => vstd::pervasive::unreached(),
        }
    }

    proof fn lemma_states(a: Self, b: Self) {
        assert(a@.contains(0) || a@.contains(1) || a@.contains(2) || a@.contains(3));
        if a@ == b@ {
            assert(a@.contains(0) == b@.contains(0));
            assert(a@.contains(1) == b@.contains(1));
            assert(a@.contains(2) == b@.contains(2));
            assert(a@.contains(3) == b@.contains(3));
        }
    }

    proof fn lemma_closed(a: Self, b: Self) {
        let s = a@.intersect(b@);
        if a == b {
            assert(a@ =~= s);
        } else if a == CellType::Empty {
            assert(b@ =~= s);
        } else if b == CellType::Empty {
            assert(a@ =~= s);
        } else {
            assert(s =~= Set::<nat>::empty());
        }
    }
}

impl Mask for LinkType {
    fn to_mask(&self) -> (m: u8) {
        proof {
            lemma_small_masks();
        }
        match self {
            LinkType::LMaybe => 3,
            LinkType::Link => 1,
            LinkType::Unlink => 2,
        }
    }

    fn from_mask(mask: u8) -> (s: Self) {
        proof {
            lemma_small_masks();
            lemma_mask_eq(mask, 3);
            lemma_mask_eq(mask, 1);
            lemma_mask_eq(mask, 2);
        }
        match mask {
            3 => LinkType::LMaybe,
            1 => LinkType::Link,
            2 => LinkType::Unlink,
            _ => vstd::pervasive::unreached(),
        }
    }

    proof fn lemma_states(a: Self, b: Self) {
        assert(a@.contains(0) || a@.contains(1));
        if a@ == b@ {
            assert(a@.contains(0) == b@.contains(0));
            assert(a@.contains(1) == b@.contains(1));
        }
    }

    proof fn lemma_closed(a: Self, b: Self) {
        let s = a@.intersect(b@);
        if a == b {
            assert(a@ =~= s);
        } else if a == LinkType::LMaybe {
            assert(b@ =~= s);
        } else if b == LinkType::LMaybe {
            assert(a@ =~= s);
        } else {
            assert(s =~= Set::<nat>::empty());
        }
    }
}

impl Mask for CornerType {
    fn to_mask(&self) -> (m: u8) {
        proof {
            lemma_small_masks();
        }
        match self {
            CornerType::CMaybe => 7,
            CornerType::CZero => 1,
            CornerType::COne => 2,
            CornerType::CTwo => 4,
            CornerType::Even => 5,
            CornerType::Less => 3,
            CornerType::Greater => 6,
        }
    }

    fn from_mask(mask: u8) -> (s: Self) {
        proof {
            lemma_small_masks();
            lemma_mask_eq(mask, 7);
            lemma_mask_eq(mask, 1);
            lemma_mask_eq(mask, 2);
            lemma_mask_eq(mask, 4);
            lemma_mask_eq(mask, 5);
            lemma_mask_eq(mask, 3);
            lemma_mask_eq(mask, 6);
        }
        match mask {
            7 => CornerType::CMaybe,
            1 => CornerType::CZero,
            2 => CornerType::COne,
            4 => CornerType::CTwo,
            5 => CornerType::Even,
            3 => CornerType::Less,
            6 => CornerType::Greater,
            _ => vstd::pervasive::unreached(),
        }
    }

    proof fn lemma_states(a: Self, b: Self) {
        assert(a@.contains(0) || a@.contains(1) || a@.contains(2));
        if a@ == b@ {
            assert(a@.contains(0) == b@.contains(0));
            assert(a@.contains(1) == b@.contains(1));
            assert(a@.contains(2) == b@.contains(2));
        }
    }

    proof fn lemma_closed(a: Self, b: Self) {
        let s = a@.intersect(b@);
        let zero = s.contains(0);
        let one = s.contains(1);
        let two = s.contains(2);
        assert forall|v: nat| s.contains(v) implies v == 0 || v == 1 || v == 2 by {
            assert(a@.contains(v));
        }
        let m = if zero && one && two {
            CornerType::CMaybe
        } else if zero && one {
            CornerType::Less
        } else if zero && two {
            CornerType::Even
        } else if one && two {
            CornerType::Greater
        } else if zero {
            CornerType::CZero
        } else if one {
            CornerType::COne
        } else {
            CornerType::CTwo
        };
        if zero || one || two {
            assert(m@ =~= s);
        } else {
            assert(s =~= Set::<nat>::empty());
        }
    }
}

/// The meet of two states: the state that allows what both allow.
pub trait Gcd: Mask {
    /// The meet of `self` and `other`. Two states that allow no common value
    /// have none, and are left out.
    fn gcd(&self, other: &Self) -> (m: Self)
        requires
            meets(*self, *other),
        ensures
            m@ == self@.intersect(other@),
            m == meet(*self, *other),
    ;
}

impl<T: Mask> Gcd for T {
    fn gcd(&self, other: &Self) -> (m: Self) {
        let x = self.to_mask();
        let y = other.to_mask();
        proof {
            lemma_encoded_order(x, y, self@, other@);
            let w = meet(*self, *other);
            assert(encodes(x & y, w@));
        }
        let m = T::from_mask(x & y);
        proof {
            lemma_encoded_order(x & y, x & y, m@, self@.intersect(other@));
            T::lemma_states(m, meet(*self, *other));
        }
        m
    }
}

/// The meet of two states allows exactly what both allow.
pub proof fn lemma_meet_view<T: Mask>(a: T, b: T)
    requires
        meets(a, b),
    ensures
        meet(a, b)@ == a@.intersect(b@),
{
}

/// Two states have a meet exactly when they allow a common value.
pub proof fn lemma_meets<T: Mask>(a: T, b: T)
    ensures
        meets(a, b) <==> a@.intersect(b@) != Set::<nat>::empty(),
{
    T::lemma_closed(a, b);
    if meets(a, b) {
        T::lemma_states(meet(a, b), a);
    }
}

/// The meet does not depend on the order of its arguments.
pub proof fn lemma_meet_commutative<T: Mask>(a: T, b: T)
    ensures
        meets(a, b) == meets(b, a),
        meet(a, b) == meet(b, a),
{
    assert(a@.intersect(b@) =~= b@.intersect(a@));
}

/// Meets may be taken in any grouping: where the meet of `a` with the meet
/// of `b` and `c` exists, so does the meet of `c` with the meet of `a` and
/// `b`, and the two are the same state.
pub proof fn lemma_meet_associative<T: Mask>(a: T, b: T, c: T)
    requires
        meets(b, c),
        meets(a, meet(b, c)),
    ensures
        meets(a, b),
        meets(meet(a, b), c),
        meet(a, meet(b, c)) == meet(meet(a, b), c),
{
    let bc = meet(b, c);
    let abc = meet(a, bc);
    assert(abc@ =~= a@.intersect(b@).intersect(c@));
    T::lemma_states(abc, a);
    lemma_meets(a, b);
    assert(a@.intersect(b@) != Set::<nat>::empty()) by {
        if a@.intersect(b@) == Set::<nat>::empty() {
            assert(abc@ =~= Set::<nat>::empty());
        }
    }
    let ab = meet(a, b);
    assert(abc@ == ab@.intersect(c@));
    T::lemma_states(abc, meet(ab, c));
}

/// The meet of a state with itself is that state.
pub proof fn lemma_meet_idempotent<T: Mask>(a: T)
    ensures
        meets(a, a),
        meet(a, a) == a,
{
    assert(a@ =~= a@.intersect(a@));
    T::lemma_states(a, meet(a, a));
}

/// The meet of two states is at least as specific as each of them.
pub proof fn lemma_meet_lower<T: Mask>(a: T, b: T)
    requires
        meets(a, b),
    ensures
        leq(meet(a, b), a),
        leq(meet(a, b), b),
{
}

/// A state that is already at least as specific as `b` is its own meet
/// with `b`.
pub proof fn lemma_meet_absorbs<T: Mask>(a: T, b: T)
    requires
        leq(a, b),
    ensures
        meets(a, b),
        meet(a, b) == a,
{
    assert(a@ =~= a@.intersect(b@));
    T::lemma_states(a, meet(a, b));
}

/// Nothing but an unlinked edge is as specific as an unlinked edge.
pub proof fn lemma_unlink_least(x: LinkType)
    requires
        leq(x, LinkType::Unlink),
    ensures
        x == LinkType::Unlink,
{
    assert(x@.contains(0) ==> LinkType::Unlink@.contains(0));
}

/// Nothing but degree zero is as specific as degree zero.
pub proof fn lemma_zero_least(x: CornerType)
    requires
        leq(x, CornerType::CZero),
    ensures
        x == CornerType::CZero,
{
    assert(x@.contains(1) ==> CornerType::CZero@.contains(1));
    assert(x@.contains(2) ==> CornerType::CZero@.contains(2));
}

/// Whether two states are the same.
pub fn same_state<T: Mask>(a: &T, b: &T) -> (e: bool)
    ensures
        e == (*a == *b),
{
    let x = a.to_mask();
    let y = b.to_mask();
    proof {
        lemma_encoded_order(x, y, a@, b@);
        T::lemma_states(*a, *b);
    }
    x == y
}

/// Whether `a` is at least as specific as `b`.
pub fn is_leq<T: Mask>(a: &T, b: &T) -> (e: bool)
    ensures
        e == leq(*a, *b),
{
    let x = a.to_mask();
    let y = b.to_mask();
    proof {
        lemma_encoded_order(x, y, a@, b@);
    }
    x & y == x
}

/// Whether `a` and `b` have a meet: whether they allow a common value.
pub fn has_meet<T: Mask>(a: &T, b: &T) -> (e: bool)
    ensures
        e == meets(*a, *b),
        e == (a@.intersect(b@) != Set::<nat>::empty()),
{
    let x = a.to_mask();
    let y = b.to_mask();
    proof {
        lemma_encoded_order(x, y, a@, b@);
        T::lemma_closed(*a, *b);
        if meets(*a, *b) {
            T::lemma_states(meet(*a, *b), *a);
        }
    }
    x & y != 0
}

impl PartialOrd for CellType {
    fn partial_cmp(&self, other: &Self) -> (r: Option<Ordering>) {
        Mask::partial_cmp(self, other)
    }
}

impl vstd::std_specs::cmp::PartialOrdSpecImpl for CellType {
    open spec fn obeys_partial_cmp_spec() -> bool {
        true
    }

    open spec fn partial_cmp_spec(&self, other: &Self) -> Option<Ordering> {
        inclusion(self@, other@)
    }
}

impl PartialOrd for LinkType {
    fn partial_cmp(&self, other: &Self) -> (r: Option<Ordering>) {
        Mask::partial_cmp(self, other)
    }
}

impl vstd::std_specs::cmp::PartialOrdSpecImpl for LinkType {
    open spec fn obeys_partial_cmp_spec() -> bool {
        true
    }

    open spec fn partial_cmp_spec(&self, other: &Self) -> Option<Ordering> {
        inclusion(self@, other@)
    }
}

impl PartialOrd for CornerType {
    fn partial_cmp(&self, other: &Self) -> (r: Option<Ordering>) {
        Mask::partial_cmp(self, other)
    }
}

impl vstd::std_specs::cmp::PartialOrdSpecImpl for CornerType {
    open spec fn obeys_partial_cmp_spec() -> bool {
        true
    }

    open spec fn partial_cmp_spec(&self, other: &Self) -> Option<Ordering> {
        inclusion(self@, other@)
    }
}

} // verus!
