//! The images of a rule under the eight symmetries of the square.

use crate::pattern;
use crate::rule::{Rule, RuleView};
use vstd::prelude::*;

verus! {

impl RuleView {
    /// The image of the rule under symmetry `k` of the square. Symmetry 0
    /// leaves the rule as it is; 1, 2 and 3 turn it by one, two and three
    /// quarters; 4 to 7 do the same and then mirror top to bottom.
    pub open spec fn image(self, k: int) -> RuleView {
        if k == 0 {
            self
        } else if k == 1 {
            self.rotated_90()
        } else if k == 2 {
            self.rotated_180()
        } else if k == 3 {
            self.rotated_90().rotated_180()
        } else if k == 4 {
            self.reversed_ud()
        } else if k == 5 {
            self.rotated_90().reversed_ud()
        } else if k == 6 {
            self.rotated_180().reversed_ud()
        } else {
            self.rotated_90().rotated_180().reversed_ud()
        }
    }

    /// The images of the rule under the symmetries 1 to `n`, in that order,
    /// without those that have the patterns of the rule itself or of an
    /// earlier image.
    pub open spec fn fresh_images(self, n: nat) -> Seq<RuleView>
        decreases n,
    {
        if n == 0 {
            Seq::empty()
        } else {
            let before = self.fresh_images((n - 1) as nat);
            let x = self.image(n as int);
            if x.same_patterns(self) || known(before, x) {
                before
            } else {
                before.push(x)
            }
        }
    }

    /// The rule and all its images.
    pub open spec fn orbit(self) -> Set<RuleView> {
        Set::new(|y: RuleView| exists|k: int| 0 <= k < 8 && y == #[trigger] self.image(k))
    }
}

/// Whether one of `rules` has the patterns of `x`.
pub open spec fn known(rules: Seq<RuleView>, x: RuleView) -> bool {
    exists|i: int| 0 <= i < rules.len() && (#[trigger] rules[i]).same_patterns(x)
}

/// The rules as mathematical values.
pub open spec fn views(rules: Seq<Rule>) -> Seq<RuleView> {
    Seq::new(rules.len(), |i: int| rules[i]@)
}

/// The symmetry that is symmetry `k` followed by a quarter turn.
pub open spec fn then_quarter(k: int) -> int {
    if k < 3 {
        k + 1
    } else if k == 3 {
        0
    } else if k == 4 {
        7
    } else {
        k - 1
    }
}

/// The symmetry that is symmetry `k` followed by a mirroring top to bottom.
pub open spec fn then_flip(k: int) -> int {
    if k < 4 {
        k + 4
    } else {
        k - 4
    }
}

/// The symmetry that is symmetry `k` followed by symmetry `j`.
pub open spec fn then(k: int, j: int) -> int {
    if j == 0 {
        k
    } else if j == 1 {
        then_quarter(k)
    } else if j == 2 {
        then_quarter(then_quarter(k))
    } else if j == 3 {
        then_quarter(then_quarter(then_quarter(k)))
    } else if j == 4 {
        then_flip(k)
    } else if j == 5 {
        then_flip(then_quarter(k))
    } else if j == 6 {
        then_flip(then_quarter(then_quarter(k)))
    } else {
        then_flip(then_quarter(then_quarter(then_quarter(k))))
    }
}

/// The symmetry that undoes symmetry `k`: the turns by one and by three
/// quarters undo each other, and every other symmetry undoes itself.
pub open spec fn undo(k: int) -> int {
    if k == 1 {
        3
    } else if k == 3 {
        1
    } else {
        k
    }
}

/// The images of a well-formed rule under a quarter turn, a half turn and the
/// two mirrorings are well formed.
pub proof fn lemma_turns_wf(x: RuleView)
    requires
        x.wf(),
    ensures
        x.rotated_90().wf(),
        x.rotated_180().wf(),
        x.reversed_ud().wf(),
        x.reversed_lr().wf(),
        x.rotated_90().rotated_90() == x.rotated_180(),
        x.rotated_180().rotated_180() == x,
        x.reversed_ud().reversed_ud() == x,
        x.reversed_lr().reversed_lr() == x,
        x.rotated_90().reversed_ud().rotated_90() == x.reversed_ud(),
{
    pattern::lemma_images_wf(x.input);
    pattern::lemma_images_wf(x.output);
    pattern::lemma_quarter_twice(x.input);
    pattern::lemma_quarter_twice(x.output);
    pattern::lemma_involutions(x.input);
    pattern::lemma_involutions(x.output);
    pattern::lemma_turn_flip_turn(x.input);
    pattern::lemma_turn_flip_turn(x.output);
}

/// Every image of a well-formed rule is well formed and has the rule's name.
pub proof fn lemma_image_wf(x: RuleView, k: int)
    requires
        x.wf(),
    ensures
        x.image(k).wf(),
        x.image(k).name == x.name,
{
    lemma_turns_wf(x);
    lemma_turns_wf(x.rotated_90());
    lemma_turns_wf(x.rotated_180());
    lemma_turns_wf(x.rotated_90().rotated_180());
}

/// A quarter turn of the image under symmetry `k` is the image under
/// `then_quarter(k)`.
pub proof fn lemma_quarter_of_image(x: RuleView, k: int)
    requires
        x.wf(),
        0 <= k < 8,
    ensures
        x.image(k).rotated_90() == x.image(then_quarter(k)),
{
    let r = x.rotated_90();
    let h = x.rotated_180();
    let t = r.rotated_180();
    lemma_turns_wf(x);
    lemma_turns_wf(r);
    lemma_turns_wf(h);
    lemma_turns_wf(t);
    // Three quarter turns, in both groupings.
    assert(h.rotated_90() == t);
    // Four quarter turns.
    assert(t.rotated_90() == x) by {
        assert(t == r.rotated_90().rotated_90());
        assert(r.rotated_90() == h);
        assert(h.rotated_90().rotated_90() == h.rotated_180());
    }
    if k == 4 {
        assert(t.rotated_90().reversed_ud().rotated_90() == t.reversed_ud());
    } else if k == 6 {
        assert(r.rotated_90().reversed_ud().rotated_90() == r.reversed_ud());
    } else if k == 7 {
        assert(h.rotated_90().reversed_ud().rotated_90() == h.reversed_ud());
    }
}

/// A mirroring top to bottom of the image under symmetry `k` is the image
/// under `then_flip(k)`.
pub proof fn lemma_flip_of_image(x: RuleView, k: int)
    requires
        x.wf(),
        0 <= k < 8,
    ensures
        x.image(k).reversed_ud() == x.image(then_flip(k)),
{
    lemma_turns_wf(x);
    lemma_turns_wf(x.rotated_90());
    lemma_turns_wf(x.rotated_180());
    lemma_turns_wf(x.rotated_90().rotated_180());
}

/// The image under symmetry `j` of the image under symmetry `k` is the image
/// under `then(k, j)`.
pub proof fn lemma_image_of_image(x: RuleView, k: int, j: int)
    requires
        x.wf(),
        0 <= k < 8,
        0 <= j < 8,
    ensures
        x.image(k).image(j) == x.image(then(k, j)),
        0 <= then(k, j) < 8,
{
    let y = x.image(k);
    let k1 = then_quarter(k);
    let k2 = then_quarter(k1);
    let k3 = then_quarter(k2);
    lemma_image_wf(x, k);
    lemma_image_wf(x, k1);
    lemma_image_wf(x, k2);
    lemma_image_wf(x, k3);
    lemma_turns_wf(y);
    lemma_quarter_of_image(x, k);
    lemma_quarter_of_image(x, k1);
    lemma_quarter_of_image(x, k2);
    lemma_flip_of_image(x, k);
    lemma_flip_of_image(x, k1);
    lemma_flip_of_image(x, k2);
    lemma_flip_of_image(x, k3);
    let r = y.rotated_90();
    lemma_turns_wf(r);
    assert(r == x.image(k1));
    assert(y.rotated_180() == x.image(k2));
    assert(r.rotated_180() == x.image(k3)) by {
        assert(r.rotated_180() == r.rotated_90().rotated_90());
    }
}

/// Every symmetry followed by the one that undoes it leaves a rule as it
/// is, and followed by the undoing of another one it does not.
pub proof fn lemma_undo(j: int, k: int)
    requires
        0 <= j < 8,
        0 <= k < 8,
    ensures
        0 <= undo(j) < 8,
        then(j, undo(j)) == 0,
        j != k ==> then(k, undo(j)) != 0,
{
}

/// Two images of a well-formed rule under different symmetries differ,
/// unless some symmetry other than symmetry 0 leaves the rule as it is.
pub proof fn lemma_images_differ(x: RuleView, j: int, k: int)
    requires
        x.wf(),
        0 <= j < 8,
        0 <= k < 8,
        j != k,
        forall|m: int| 1 <= m < 8 ==> #[trigger] x.image(m) != x,
    ensures
        x.image(j) != x.image(k),
{
    lemma_undo(j, k);
    lemma_image_of_image(x, j, undo(j));
    lemma_image_of_image(x, k, undo(j));
    if x.image(j) == x.image(k) {
        let m = then(k, undo(j));
        assert(x.image(m) == x);
    }
}

/// What the list of fresh images holds: images that differ from the rule
/// and from each other, and one for every image that differs from the rule.
pub proof fn lemma_fresh_images(x: RuleView, n: nat)
    ensures
        x.fresh_images(n).len() <= n,
        forall|i: int|
            0 <= i < x.fresh_images(n).len() ==> !(#[trigger] x.fresh_images(n)[i]).same_patterns(x)
                && exists|k: int| 1 <= k <= n && x.fresh_images(n)[i] == #[trigger] x.image(k),
        forall|i: int, j: int|
            0 <= i < j < x.fresh_images(n).len() ==> !(#[trigger] x.fresh_images(
                n,
            )[i]).same_patterns(#[trigger] x.fresh_images(n)[j]),
        forall|k: int|
            1 <= k <= n ==> (#[trigger] x.image(k)).same_patterns(x) || known(
                x.fresh_images(n),
                x.image(k),
            ),
    decreases n,
{
    if n > 0 {
        let before = x.fresh_images((n - 1) as nat);
        let after = x.fresh_images(n);
        let y = x.image(n as int);
        lemma_fresh_images(x, (n - 1) as nat);
        assert forall|k: int| 1 <= k <= n implies (#[trigger] x.image(k)).same_patterns(x)
            || known(after, x.image(k)) by {
            if k < n {
                if !x.image(k).same_patterns(x) {
                    let i = choose|i: int|
                        0 <= i < before.len() && (#[trigger] before[i]).same_patterns(x.image(k));
                    assert(after[i].same_patterns(x.image(k)));
                }
            } else if !y.same_patterns(x) {
                if known(before, y) {
                    let i = choose|i: int|
                        0 <= i < before.len() && (#[trigger] before[i]).same_patterns(y);
                    assert(after[i].same_patterns(y));
                } else {
                    assert(after[before.len() as int].same_patterns(y));
                }
            }
        }
        assert forall|i: int| 0 <= i < after.len() implies !(#[trigger] after[i]).same_patterns(x)
            && exists|k: int| 1 <= k <= n && after[i] == #[trigger] x.image(k) by {
            if i < before.len() {
                let k = choose|k: int| 1 <= k <= n - 1 && before[i] == #[trigger] x.image(k);
                assert(after[i] == x.image(k));
            } else {
                assert(after[i] == x.image(n as int));
            }
        }
        assert forall|i: int, j: int| 0 <= i < j < after.len() implies !(#[trigger] after[
            i
        ]).same_patterns(#[trigger] after[j]) by {
            if j >= before.len() {
                assert(before[i].same_patterns(y) ==> known(before, y));
            }
        }
    }
}

/// Where no symmetry but symmetry 0 leaves a well-formed rule as it is, the
/// first `n` of its images are all fresh.
proof fn lemma_all_fresh(x: RuleView, n: nat)
    requires
        x.wf(),
        n <= 7,
        forall|m: int| 1 <= m < 8 ==> !(#[trigger] x.image(m)).same_patterns(x),
    ensures
        x.fresh_images(n).len() == n,
        forall|i: int| 0 <= i < n ==> #[trigger] x.fresh_images(n)[i] == x.image(i + 1),
    decreases n,
{
    if n > 0 {
        lemma_all_fresh(x, (n - 1) as nat);
        let before = x.fresh_images((n - 1) as nat);
        let y = x.image(n as int);
        assert forall|m: int| 1 <= m < 8 implies #[trigger] x.image(m) != x by {
            assert(!x.image(m).same_patterns(x));
        }
        if known(before, y) {
            let i = choose|i: int| 0 <= i < before.len() && (#[trigger] before[i]).same_patterns(y);
            lemma_images_differ(x, i + 1, n as int);
            lemma_image_wf(x, i + 1);
            lemma_image_wf(x, n as int);
            assert(before[i] == x.image(i + 1));
            assert(x.image(i + 1) == y);
        }
    }
}

/// A well-formed rule that no symmetry but symmetry 0 leaves as it is has
/// seven fresh images: its images under the symmetries 1 to 7. They differ
/// from the rule and from each other.
pub proof fn lemma_full_orbit(x: RuleView)
    requires
        x.wf(),
        forall|m: int| 1 <= m < 8 ==> !(#[trigger] x.image(m)).same_patterns(x),
    ensures
        x.fresh_images(7).len() == 7,
        forall|i: int| 0 <= i < 7 ==> #[trigger] x.fresh_images(7)[i] == x.image(i + 1),
        forall|i: int| 0 <= i < 7 ==> !(#[trigger] x.fresh_images(7)[i]).same_patterns(x),
        forall|i: int, j: int|
            0 <= i < j < 7 ==> !(#[trigger] x.fresh_images(7)[i]).same_patterns(
                #[trigger] x.fresh_images(7)[j],
            ),
{
    lemma_all_fresh(x, 7);
    lemma_fresh_images(x, 7);
}

/// The orbit of a member of the orbit of a well-formed rule lies in that
/// orbit.
proof fn lemma_orbit_within(x: RuleView, y: RuleView)
    requires
        x.wf(),
        x.orbit().contains(y),
    ensures
        y.wf(),
        x.orbit().contains(x),
        y.orbit().subset_of(x.orbit()),
        y.orbit().contains(x),
{
    let k = choose|k: int| 0 <= k < 8 && y == #[trigger] x.image(k);
    lemma_image_wf(x, k);
    assert(x == x.image(0));
    assert forall|z: RuleView| y.orbit().contains(z) implies x.orbit().contains(z) by {
        let j = choose|j: int| 0 <= j < 8 && z == #[trigger] y.image(j);
        lemma_image_of_image(x, k, j);
        assert(z == x.image(then(k, j)));
    }
    lemma_undo(k, k);
    lemma_image_of_image(x, k, undo(k));
    assert(x == y.image(undo(k)));
}

/// Every member of the orbit of a well-formed rule has the same orbit.
pub proof fn lemma_orbit_of_member(x: RuleView, y: RuleView)
    requires
        x.wf(),
        x.orbit().contains(y),
    ensures
        y.orbit() == x.orbit(),
{
    lemma_orbit_within(x, y);
    lemma_orbit_within(y, x);
    assert(y.orbit() =~= x.orbit());
}

/// The orbit of a well-formed rule is the rule together with its fresh
/// images.
pub proof fn lemma_orbit_listed(x: RuleView)
    requires
        x.wf(),
    ensures
        x.orbit() == x.fresh_images(7).to_set().insert(x),
{
    let fresh = x.fresh_images(7);
    let listed = fresh.to_set().insert(x);
    lemma_fresh_images(x, 7);
    assert forall|z: RuleView| x.orbit().contains(z) implies listed.contains(z) by {
        let k = choose|k: int| 0 <= k < 8 && z == #[trigger] x.image(k);
        lemma_image_wf(x, k);
        if k != 0 && !z.same_patterns(x) {
            let i = choose|i: int| 0 <= i < fresh.len() && (#[trigger] fresh[i]).same_patterns(z);
            let m = choose|m: int| 1 <= m <= 7 && fresh[i] == #[trigger] x.image(m);
            lemma_image_wf(x, m);
            assert(fresh[i] == z);
            assert(fresh.contains(z));
        }
    }
    assert forall|z: RuleView| listed.contains(z) implies x.orbit().contains(z) by {
        if z == x {
            assert(x == x.image(0));
        } else {
            let i = choose|i: int| 0 <= i < fresh.len() && fresh[i] == z;
            let m = choose|m: int| 1 <= m <= 7 && fresh[i] == #[trigger] x.image(m);
            assert(z == x.image(m));
        }
    }
    assert(x.orbit() =~= listed);
}

/// The fresh images of a fresh image of a well-formed rule are, together
/// with that image, the rule and its fresh images: as sets, every member of
/// an orbit gives the same orbit.
pub proof fn lemma_orbit_again(x: RuleView, y: RuleView)
    requires
        x.wf(),
        y == x || x.fresh_images(7).contains(y),
    ensures
        y.fresh_images(7).to_set().insert(y) == x.fresh_images(7).to_set().insert(x),
{
    lemma_orbit_listed(x);
    assert(x.fresh_images(7).to_set().insert(x).contains(y));
    lemma_orbit_within(x, y);
    lemma_orbit_of_member(x, y);
    lemma_orbit_listed(y);
}

/// The number of symmetries below `n` that leave the rule as it is.
pub open spec fn fixed_count(x: RuleView, n: nat) -> nat
    decreases n,
{
    if n == 0 {
        0
    } else {
        fixed_count(x, (n - 1) as nat) + if x.image(n - 1) == x {
            1nat
        } else {
            0nat
        }
    }
}

/// Whether the image under symmetry `n` differs from the rule and from its
/// images under the symmetries 1 to `n - 1`.
pub open spec fn is_new(x: RuleView, n: int) -> bool {
    x.image(n) != x && forall|i: int| 1 <= i < n ==> #[trigger] x.image(i) != x.image(n)
}

/// Two images of a well-formed rule are the same exactly when the second
/// symmetry, followed by the undoing of the first, leaves the rule as it is.
pub proof fn lemma_same_image(x: RuleView, j: int, k: int)
    requires
        x.wf(),
        0 <= j < 8,
        0 <= k < 8,
    ensures
        0 <= then(k, undo(j)) < 8,
        (x.image(j) == x.image(k)) == (x.image(then(k, undo(j))) == x),
{
    let m = then(k, undo(j));
    lemma_undo(j, k);
    lemma_image_of_image(x, j, undo(j));
    lemma_image_of_image(x, k, undo(j));
    lemma_image_of_image(x, m, j);
    assert(then(m, j) == k);
}

/// The list of fresh images grows by one with every image that differs
/// from the rule and from the images before it, and with no other.
proof fn lemma_fresh_step(x: RuleView, n: nat)
    requires
        x.wf(),
        1 <= n <= 7,
    ensures
        x.fresh_images(n).len() == x.fresh_images((n - 1) as nat).len() + if is_new(x, n as int) {
            1nat
        } else {
            0nat
        },
{
    let before = x.fresh_images((n - 1) as nat);
    let y = x.image(n as int);
    lemma_fresh_images(x, (n - 1) as nat);
    lemma_image_wf(x, n as int);
    if known(before, y) {
        let i = choose|i: int| 0 <= i < before.len() && (#[trigger] before[i]).same_patterns(y);
        let k = choose|k: int| 1 <= k <= n - 1 && before[i] == #[trigger] x.image(k);
        lemma_image_wf(x, k);
        assert(x.image(k) == y);
    } else if !y.same_patterns(x) {
        assert forall|k: int| 1 <= k < n implies #[trigger] x.image(k) != y by {
            lemma_image_wf(x, k);
            if x.image(k) == y {
                assert(!x.image(k).same_patterns(x));
                assert(known(before, x.image(k)));
            }
        }
    }
}

/// One for a true statement and zero for a false one.
pub open spec fn one_if(b: bool) -> nat {
    if b {
        1
    } else {
        0
    }
}

/// The fresh images of a well-formed rule are, with the rule itself, as
/// many as eight divided by the number of symmetries that leave the rule as
/// it is: there are 0, 1, 3 or 7 of them.
pub proof fn lemma_orbit_size(x: RuleView)
    requires
        x.wf(),
    ensures
        (x.fresh_images(7).len() + 1) * fixed_count(x, 8) == 8,
        x.fresh_images(7).len() == 0 || x.fresh_images(7).len() == 1 || x.fresh_images(7).len()
            == 3 || x.fresh_images(7).len() == 7,
{
    let b1 = x.image(1) == x;
    let b2 = x.image(2) == x;
    let b3 = x.image(3) == x;
    let b4 = x.image(4) == x;
    let b5 = x.image(5) == x;
    let b6 = x.image(6) == x;
    let b7 = x.image(7) == x;
    let fixed = 1 + one_if(b1) + one_if(b2) + one_if(b3) + one_if(b4) + one_if(b5) + one_if(b6)
        + one_if(b7);
    let fresh = one_if(is_new(x, 1)) + one_if(is_new(x, 2)) + one_if(is_new(x, 3)) + one_if(
        is_new(x, 4),
    ) + one_if(is_new(x, 5)) + one_if(is_new(x, 6)) + one_if(is_new(x, 7));
    assert(fixed_count(x, 8) == fixed) by {
        reveal_with_fuel(fixed_count, 9);
        assert(x.image(0) == x);
    }
    assert(x.fresh_images(7).len() == fresh) by {
        lemma_fresh_step(x, 1);
        lemma_fresh_step(x, 2);
        lemma_fresh_step(x, 3);
        lemma_fresh_step(x, 4);
        lemma_fresh_step(x, 5);
        lemma_fresh_step(x, 6);
        lemma_fresh_step(x, 7);
        assert(x.fresh_images(0).len() == 0);
    }
    lemma_new_images(x, b1, b2, b3, b4, b5, b6, b7);
    lemma_count(
        b1,
        b2,
        b3,
        b4,
        b5,
        b6,
        b7,
        is_new(x, 1),
        is_new(x, 2),
        is_new(x, 3),
        is_new(x, 4),
        is_new(x, 5),
        is_new(x, 6),
        is_new(x, 7),
    );
}

/// The count of the new images, for every set of symmetries that is closed
/// under composition.
proof fn lemma_count(
    b1: bool,
    b2: bool,
    b3: bool,
    b4: bool,
    b5: bool,
    b6: bool,
    b7: bool,
    n1: bool,
    n2: bool,
    n3: bool,
    n4: bool,
    n5: bool,
    n6: bool,
    n7: bool,
)
    requires
        n1 == !b1,
        n2 == (!b2 && !b1),
        n3 == (!b3 && !b2 && !b1),
        n4 == (!b4 && !b5 && !b6 && !b7),
        n5 == (!b5 && !b6 && !b7 && !b4 && !b3),
        n6 == (!b6 && !b7 && !b4 && !b5 && !b2 && !b3),
        n7 == (!b7 && !b4 && !b5 && !b6 && !b1 && !b2 && !b3),
        b1 == b3,
        b1 ==> b2,
        b4 && b5 ==> b1,
        b5 && b6 ==> b1,
        b6 && b7 ==> b1,
        b7 && b4 ==> b1,
        b4 && b6 ==> b2,
        b5 && b7 ==> b2,
        b2 && b4 ==> b6,
        b2 && b6 ==> b4,
        b2 && b5 ==> b7,
        b2 && b7 ==> b5,
        b1 && b4 ==> b5,
        b1 && b5 ==> b6,
        b1 && b6 ==> b7,
        b1 && b7 ==> b4,
    ensures
        (one_if(n1) + one_if(n2) + one_if(n3) + one_if(n4) + one_if(n5) + one_if(n6) + one_if(n7)
            + 1) * (1 + one_if(b1) + one_if(b2) + one_if(b3) + one_if(b4) + one_if(b5) + one_if(b6)
            + one_if(b7)) == 8,
        ({
            let fresh = one_if(n1) + one_if(n2) + one_if(n3) + one_if(n4) + one_if(n5) + one_if(n6)
                + one_if(n7);
            fresh == 0 || fresh == 1 || fresh == 3 || fresh == 7
        }),
{
    let fresh = one_if(n1) + one_if(n2) + one_if(n3) + one_if(n4) + one_if(n5) + one_if(n6)
        + one_if(n7);
    let fixed = 1 + one_if(b1) + one_if(b2) + one_if(b3) + one_if(b4) + one_if(b5) + one_if(b6)
        + one_if(b7);
    assert((fixed == 1 && fresh == 7) || (fixed == 2 && fresh == 3) || (fixed == 4 && fresh == 1)
        || (fixed == 8 && fresh == 0));
}

/// Which images are new, read off the symmetries that leave the rule as it
/// is.
proof fn lemma_new_images(
    x: RuleView,
    b1: bool,
    b2: bool,
    b3: bool,
    b4: bool,
    b5: bool,
    b6: bool,
    b7: bool,
)
    requires
        x.wf(),
        b1 == (x.image(1) == x),
        b2 == (x.image(2) == x),
        b3 == (x.image(3) == x),
        b4 == (x.image(4) == x),
        b5 == (x.image(5) == x),
        b6 == (x.image(6) == x),
        b7 == (x.image(7) == x),
    ensures
        is_new(x, 1) == !b1,
        is_new(x, 2) == (!b2 && !b1),
        is_new(x, 3) == (!b3 && !b2 && !b1),
        is_new(x, 4) == (!b4 && !b5 && !b6 && !b7),
        is_new(x, 5) == (!b5 && !b6 && !b7 && !b4 && !b3),
        is_new(x, 6) == (!b6 && !b7 && !b4 && !b5 && !b2 && !b3),
        is_new(x, 7) == (!b7 && !b4 && !b5 && !b6 && !b1 && !b2 && !b3),
        b1 == b3,
        b1 ==> b2,
        b4 && b5 ==> b1,
        b5 && b6 ==> b1,
        b6 && b7 ==> b1,
        b7 && b4 ==> b1,
        b4 && b6 ==> b2,
        b5 && b7 ==> b2,
        b2 && b4 ==> b6,
        b2 && b6 ==> b4,
        b2 && b5 ==> b7,
        b2 && b7 ==> b5,
        b1 && b4 ==> b5,
        b1 && b5 ==> b6,
        b1 && b6 ==> b7,
        b1 && b7 ==> b4,
{
    assert(x.image(0) == x);
    assert forall|j: int, k: int| 0 <= j < 8 && 0 <= k < 8 implies (#[trigger] x.image(j)
        == #[trigger] x.image(k)) == (x.image(then(k, undo(j))) == x) by {
        lemma_same_image(x, j, k);
    }
    assert forall|j: int, k: int|
        0 <= j < 8 && 0 <= k < 8 && #[trigger] x.image(j) == x && #[trigger] x.image(k)
            == x implies x.image(then(j, k)) == x by {
        lemma_image_of_image(x, j, k);
    }
}

/// Whether one of `rules` has the patterns of `x`.
fn is_known(rules: &Vec<Rule>, x: &Rule) -> (b: bool)
    ensures
        b == known(views(rules@), x@),
{
    let mut i: usize = 0;
    while i < rules.len()
        invariant
            i <= rules.len(),
            forall|k: int| 0 <= k < i ==> !(#[trigger] views(rules@)[k]).same_patterns(x@),
        decreases rules.len() - i,
    {
        if rules[i].same(x) {
            assert(views(rules@)[i as int].same_patterns(x@));
            return true;
        }
        i += 1;
    }
    false
}

/// Adds `image` to `out` unless it has the patterns of `rule` or of a rule
/// that `out` holds already.
fn keep_fresh(rule: &Rule, out: &mut Vec<Rule>, image: Rule)
    ensures
        views(final(out)@) == if image@.same_patterns(rule@) || known(views(old(out)@), image@) {
            views(old(out)@)
        } else {
            views(old(out)@).push(image@)
        },
{
    if !image.same(rule) && !is_known(out, &image) {
        let ghost before = views(out@);
        out.push(image);
        assert(views(out@) =~= before.push(image@));
    }
}

impl Rule {
    /// The images of the rule under the symmetries of the square that
    /// differ from the rule and from each other: the rule turned by one, two
    /// and three quarters, and the rule and each of those mirrored top to
    /// bottom, each kept where no earlier one has its patterns.
    pub fn symmetries(&self) -> (out: Vec<Rule>)
        ensures
            views(out@) == self@.fresh_images(7),
            self@.orbit() == views(out@).to_set().insert(self@),
            out@.len() <= 7,
            forall|i: int|
                0 <= i < out@.len() ==> !(#[trigger] views(out@)[i]).same_patterns(self@),
            forall|i: int, j: int|
                0 <= i < j < out@.len() ==> !(#[trigger] views(out@)[i]).same_patterns(
                    #[trigger] views(out@)[j],
                ),
            forall|k: int|
                1 <= k < 8 ==> (#[trigger] self@.image(k)).same_patterns(self@) || known(
                    views(out@),
                    self@.image(k),
                ),
            (forall|k: int| 1 <= k < 8 ==> !(#[trigger] self@.image(k)).same_patterns(self@))
                ==> out@.len() == 7,
            (out@.len() + 1) * fixed_count(self@, 8) == 8,
            out@.len() == 0 || out@.len() == 1 || out@.len() == 3 || out@.len() == 7,
    {
        let r90 = self.rotated_90();
        let r180 = self.rotated_180();
        let r270 = r90.rotated_180();
        let refl = self.reversed_ud();
        let refl2 = r90.reversed_ud();
        let refl3 = r180.reversed_ud();
        let refl4 = r270.reversed_ud();
        proof {
            use_type_invariant(self);
        }
        let mut out: Vec<Rule> = Vec::new();
        assert(views(out@) =~= self@.fresh_images(0));
        keep_fresh(self, &mut out, r90);
        assert(views(out@) == self@.fresh_images(1));
        keep_fresh(self, &mut out, r180);
        assert(views(out@) == self@.fresh_images(2));
        keep_fresh(self, &mut out, r270);
        assert(views(out@) == self@.fresh_images(3));
        keep_fresh(self, &mut out, refl);
        assert(views(out@) == self@.fresh_images(4));
        keep_fresh(self, &mut out, refl2);
        assert(views(out@) == self@.fresh_images(5));
        keep_fresh(self, &mut out, refl3);
        assert(views(out@) == self@.fresh_images(6));
        keep_fresh(self, &mut out, refl4);
        assert(views(out@) == self@.fresh_images(7));
        proof {
            lemma_fresh_images(self@, 7);
            lemma_orbit_listed(self@);
            lemma_orbit_size(self@);
            if forall|k: int| 1 <= k < 8 ==> !(#[trigger] self@.image(k)).same_patterns(self@) {
                lemma_full_orbit(self@);
            }
        }
        out
    }
}

} // verus!
