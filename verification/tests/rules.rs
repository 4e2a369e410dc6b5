use grid_rules::diagram::DiagramError;
use grid_rules::element::{CellType, CornerType, LinkType};
use grid_rules::pattern::HalfRule;
use grid_rules::rule::{Rule, RuleError};

/// A pattern of one row of two cells in which no two positions of a layer agree by chance.
const SKEW: &str = "\
+=======+       +
  0   1   2   E  
$   1       2   .
  L   G       0  
+.......+=======+";

const BLANK: &str = "\
+.......+
.       .
.       .
.       .
+.......+";

fn cells(p: &HalfRule) -> Vec<Vec<CellType>> {
    (0..p.height()).map(|r| (0..p.width()).map(|c| p.cell(r, c)).collect()).collect()
}

fn hlinks(p: &HalfRule) -> Vec<Vec<LinkType>> {
    (0..=p.height()).map(|r| (0..p.width()).map(|c| p.hlink(r, c)).collect()).collect()
}

fn vlinks(p: &HalfRule) -> Vec<Vec<LinkType>> {
    (0..p.height()).map(|r| (0..=p.width()).map(|c| p.vlink(r, c)).collect()).collect()
}

fn corners(p: &HalfRule) -> Vec<Vec<CornerType>> {
    (0..2 * p.height()).map(|r| (0..2 * p.width()).map(|c| p.corner(r, c)).collect()).collect()
}

use CellType::{Empty, One, Three, Two, Zero};
use CornerType::{CMaybe, COne, CTwo, CZero, Even, Greater, Less};
use LinkType::{LMaybe, Link, Unlink};

#[test]
fn diagram_is_read_layer_by_layer() {
    let p = HalfRule::new(SKEW);
    assert_eq!((p.height(), p.width()), (1, 2));
    assert_eq!(cells(&p), vec![vec![One, Two]]);
    assert_eq!(hlinks(&p), vec![vec![Link, Unlink], vec![LMaybe, Link]]);
    assert_eq!(vlinks(&p), vec![vec![Link, Unlink, LMaybe]]);
    assert_eq!(
        corners(&p),
        vec![vec![CZero, COne, CTwo, Even], vec![Less, Greater, CMaybe, CZero]]
    );
    assert_eq!(p.cells(), &cells(&p));
    assert_eq!(p.hlinks(), &hlinks(&p));
    assert_eq!(p.vlinks(), &vlinks(&p));
    assert_eq!(p.corners(), &corners(&p));
}

#[test]
fn diagram_may_stand_in_white_space_and_end_lines_with_cr_lf() {
    let text = format!("\n \t{}\r\n\n  ", SKEW.replace('\n', "\r\n"));
    let p = HalfRule::new(&text);
    assert!(p.same(&HalfRule::new(SKEW)));
}

#[test]
fn every_cell_symbol_is_read() {
    let text = "\
+.......+.......+.......+.......+.......+
.                                       .
.       .   0   .   1   .   2   .   3   .
.                                       .
+.......+.......+.......+.......+.......+";
    let p = HalfRule::new(text);
    assert_eq!(cells(&p), vec![vec![Empty, Zero, One, Two, Three]]);
}

#[test]
fn pattern_without_cells_has_one_row_of_links() {
    let p = HalfRule::new("+=======+.......+");
    assert_eq!((p.height(), p.width()), (0, 2));
    assert_eq!(hlinks(&p), vec![vec![Link, LMaybe]]);
    assert!(cells(&p).is_empty());
    let q = HalfRule::new("x");
    assert_eq!((q.height(), q.width()), (0, 0));
    assert_eq!(hlinks(&q), vec![Vec::<LinkType>::new()]);
}

#[test]
fn malformed_diagrams_are_told_apart() {
    assert_eq!(HalfRule::parse(b"").err(), Some(DiagramError::Lines));
    assert_eq!(HalfRule::parse(b"  \n ").err(), Some(DiagramError::Lines));
    assert_eq!(HalfRule::parse(b"+.......+\n.       .").err(), Some(DiagramError::Lines));
    assert_eq!(HalfRule::parse(b"+......+").err(), Some(DiagramError::Width));
    assert_eq!(HalfRule::parse(b"+.......+.").err(), Some(DiagramError::Width));
    let short = BLANK.replace(".       .\n+", ".      .\n+");
    assert_eq!(HalfRule::parse(short.as_bytes()).err(), Some(DiagramError::Width));
    assert_eq!(HalfRule::parse(b"+...$...+").err(), Some(DiagramError::Symbol));
    let cell = BLANK.replace(".       .\n.       .\n.", ".       .\n.   4   .\n.");
    assert_eq!(HalfRule::parse(cell.as_bytes()).err(), Some(DiagramError::Symbol));
    let vlink = BLANK.replace(".       .\n.       .\n.", ".       .\n=       .\n.");
    assert_eq!(HalfRule::parse(vlink.as_bytes()).err(), Some(DiagramError::Symbol));
    let corner = BLANK.replace("+\n.       .", "+\n. 3     .");
    assert_eq!(HalfRule::parse(corner.as_bytes()).err(), Some(DiagramError::Symbol));
    assert!(HalfRule::parse(BLANK.as_bytes()).is_ok());
}

#[test]
fn places_that_are_not_read_may_hold_anything() {
    let text = BLANK.replace('+', "#").replace(".       .\n#", "ab cde gh\n#");
    assert!(HalfRule::new(&text).same(&HalfRule::new(BLANK)));
}

#[test]
fn rule_text_is_two_diagrams_around_an_arrow() {
    let text = format!("{}\n=>\n{}", SKEW, SKEW.replace("+.......+=", "+       +="));
    let rule = Rule::new("skew", &text);
    assert_eq!(rule.name(), "skew");
    assert!(rule.rule_in().same(&HalfRule::new(SKEW)));
    assert_eq!(hlinks(rule.rule_out()), vec![vec![Link, Unlink], vec![Unlink, Link]]);
    assert_eq!(cells(rule.rule_out()), vec![vec![One, Two]]);
}

#[test]
fn malformed_rule_texts_are_told_apart() {
    let two = format!("{}=>{}", BLANK, BLANK);
    assert!(Rule::parse("r", two.as_bytes()).is_ok());
    assert_eq!(Rule::parse("r", BLANK.as_bytes()).err(), Some(RuleError::Arrows));
    assert_eq!(Rule::parse("r", b"").err(), Some(RuleError::Arrows));
    assert_eq!(Rule::parse("r", b"=").err(), Some(RuleError::Arrows));
    let three = format!("{}=>{}=>{}", BLANK, BLANK, BLANK);
    assert_eq!(Rule::parse("r", three.as_bytes()).err(), Some(RuleError::Arrows));
    let bad_in = format!("{}=>{}", "+......+", BLANK);
    assert_eq!(
        Rule::parse("r", bad_in.as_bytes()).err(),
        Some(RuleError::Input(DiagramError::Width))
    );
    let bad_out = format!("{}=>{}", BLANK, "+...x...+");
    assert_eq!(
        Rule::parse("r", bad_out.as_bytes()).err(),
        Some(RuleError::Output(DiagramError::Symbol))
    );
    let empty_out = format!("{}=>", BLANK);
    assert_eq!(
        Rule::parse("r", empty_out.as_bytes()).err(),
        Some(RuleError::Output(DiagramError::Lines))
    );
    let sizes = format!("{}=>{}", BLANK, SKEW);
    assert_eq!(Rule::parse("r", sizes.as_bytes()).err(), Some(RuleError::Size));
}

#[test]
fn quarter_turn_carries_each_layer_to_its_place() {
    let p = HalfRule::new(SKEW).rotated_90();
    assert_eq!((p.height(), p.width()), (2, 1));
    assert_eq!(cells(&p), vec![vec![Two], vec![One]]);
    assert_eq!(hlinks(&p), vec![vec![LMaybe], vec![Unlink], vec![Link]]);
    assert_eq!(vlinks(&p), vec![vec![Unlink, Link], vec![Link, LMaybe]]);
    assert_eq!(
        corners(&p),
        vec![vec![Even, CZero], vec![CTwo, CMaybe], vec![COne, Greater], vec![CZero, Less]]
    );
}

#[test]
fn mirrorings_and_half_turn_carry_each_layer_to_its_place() {
    let p = HalfRule::new(SKEW);
    let lr = p.reversed_lr();
    assert_eq!(cells(&lr), vec![vec![Two, One]]);
    assert_eq!(hlinks(&lr), vec![vec![Unlink, Link], vec![Link, LMaybe]]);
    assert_eq!(vlinks(&lr), vec![vec![LMaybe, Unlink, Link]]);
    assert_eq!(
        corners(&lr),
        vec![vec![Even, CTwo, COne, CZero], vec![CZero, CMaybe, Greater, Less]]
    );
    let ud = p.reversed_ud();
    assert_eq!(cells(&ud), vec![vec![One, Two]]);
    assert_eq!(hlinks(&ud), vec![vec![LMaybe, Link], vec![Link, Unlink]]);
    assert_eq!(vlinks(&ud), vec![vec![Link, Unlink, LMaybe]]);
    assert_eq!(
        corners(&ud),
        vec![vec![Less, Greater, CMaybe, CZero], vec![CZero, COne, CTwo, Even]]
    );
    let half = p.rotated_180();
    assert_eq!(cells(&half), vec![vec![Two, One]]);
    assert_eq!(hlinks(&half), vec![vec![Link, LMaybe], vec![Unlink, Link]]);
    assert_eq!(vlinks(&half), vec![vec![LMaybe, Unlink, Link]]);
    assert_eq!(
        corners(&half),
        vec![vec![CZero, CMaybe, Greater, Less], vec![Even, CTwo, COne, CZero]]
    );
}

#[test]
fn turns_and_mirrorings_compose_as_in_the_square() {
    let p = HalfRule::new(SKEW);
    assert!(p.rotated_90().rotated_90().same(&p.rotated_180()));
    assert!(p.rotated_90().rotated_90().rotated_90().rotated_90().same(&p));
    assert!(p.rotated_180().rotated_180().same(&p));
    assert!(p.reversed_ud().reversed_ud().same(&p));
    assert!(p.reversed_lr().reversed_lr().same(&p));
    assert!(p.reversed_lr().reversed_ud().same(&p.rotated_180()));
    assert!(p.rotated_90().reversed_ud().rotated_90().same(&p.reversed_ud()));
    assert!(!p.rotated_90().same(&p));
    assert!(!p.reversed_ud().same(&p));
}

fn rule_of(input: &str) -> Rule {
    Rule::new("r", &format!("{}\n=>\n{}", input, input))
}

fn orbit(rule: Rule) -> Vec<Rule> {
    let mut all = rule.symmetries();
    all.insert(0, rule);
    all
}

fn same_set(a: &[Rule], b: &[Rule]) -> bool {
    a.iter().all(|x| b.contains(x)) && b.iter().all(|x| a.contains(x))
}

#[test]
fn rule_without_symmetry_has_seven_images() {
    let rule = rule_of(SKEW);
    let images = rule.symmetries();
    assert_eq!(images.len(), 7);
    for (i, a) in images.iter().enumerate() {
        assert!(*a != rule);
        assert_eq!(a.name(), "r");
        for b in &images[i + 1..] {
            assert!(a != b);
        }
    }
    assert!(images[0] == rule.rotated_90());
    assert!(images[1] == rule.rotated_180());
    assert!(images[2] == rule.rotated_90().rotated_180());
    assert!(images[3] == rule.reversed_ud());
    assert!(images[4] == rule.rotated_90().reversed_ud());
    assert!(images[5] == rule.rotated_180().reversed_ud());
    assert!(images[6] == rule.rotated_90().rotated_180().reversed_ud());
    assert!(images.contains(&rule.reversed_lr()));
}

#[test]
fn every_member_of_an_orbit_gives_the_same_orbit() {
    for input in [SKEW, BLANK, "+=======+.......+", "+=======+\n.       .\n$       .\n.       .\n+.......+"] {
        let all = orbit(rule_of(input));
        for member in &all {
            let again = orbit(rule_of_copy(member));
            assert!(same_set(&all, &again));
            assert_eq!(all.len(), again.len());
        }
    }
}

fn rule_of_copy(rule: &Rule) -> Rule {
    rule.clone()
}

#[test]
fn symmetric_rules_have_fewer_images() {
    // All eight symmetries leave the rule as it is.
    assert_eq!(rule_of(BLANK).symmetries().len(), 0);
    // A half turn and the two mirrorings leave the rule as it is.
    let wide = rule_of("+.......+.......+\n.               .\n.       .       .\n.               .\n+.......+.......+");
    let images = wide.symmetries();
    assert_eq!(images.len(), 1);
    assert!(images[0] == wide.rotated_90());
    // Only the mirroring left to right leaves the rule as it is.
    let top = rule_of("+=======+\n.       .\n.       .\n.       .\n+.......+");
    assert_eq!(top.symmetries().len(), 3);
    // Only the mirroring along one diagonal leaves the rule as it is.
    let diagonal = rule_of("+=======+\n.       .\n$       .\n.       .\n+.......+");
    let images = diagonal.symmetries();
    assert_eq!(images.len(), 3);
    assert!(images[0] == diagonal.rotated_90());
    assert!(images[1] == diagonal.rotated_180());
    assert!(images[2] == diagonal.rotated_90().rotated_180());
    // Only the half turn leaves the rule as it is.
    let turn = rule_of("+=======+.......+\n.               .\n.       .       .\n.               .\n+.......+=======+");
    assert_eq!(turn.symmetries().len(), 3);
}

#[test]
fn copies_are_equal_to_what_they_copy() {
    let p = HalfRule::new(SKEW);
    let q = p.clone();
    assert!(p == q);
    assert!(p != p.reversed_lr());
    assert_eq!(q.cell(0, 1), Two);
    let rule = rule_of(SKEW);
    let copy = rule.clone();
    assert!(rule == copy);
    assert_eq!(copy.name(), "r");
}

#[test]
fn rules_are_equal_when_their_patterns_are() {
    let a = Rule::new("a", &format!("{}=>{}", BLANK, BLANK));
    let b = Rule::new("b", &format!("{}=>{}", BLANK, BLANK));
    let c = Rule::new("a", &format!("{}=>{}", BLANK, BLANK.replace("+.......+\n.", "+       +\n.")));
    assert!(a == b);
    assert!(a != c);
    assert!(a.same(&b));
    assert!(!a.same(&c));
}
