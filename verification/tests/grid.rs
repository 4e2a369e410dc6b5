use grid_rules::element::{CellType, CornerType, LinkType};
use grid_rules::game::{Contradiction, Game, TaskError};
use grid_rules::rule::Rule;

const TASK: &str = "b2b2a1d222a202b333a";

/// A rule of one row of four cells: around a cell with the label 0 no edge is linked.
const ZERO_RULE: &str = "\
+.......+.......+.......+.......+
.               .               .
.   0   .       .       .       .
.               .               .
+.......+.......+.......+.......+
=>
+       +.......+.......+.......+
.               .               .
    0           .       .       .
.               .               .
+       +.......+.......+.......+
";

#[test]
fn task_places_the_labels() {
    let game = Game::new(5, 5, TASK);
    assert_eq!(game.height(), 7);
    assert_eq!(game.width(), 7);
    let want = [
        [CellType::Empty, CellType::Empty, CellType::Two, CellType::Empty, CellType::Empty],
        [CellType::Two, CellType::Empty, CellType::One, CellType::Empty, CellType::Empty],
        [CellType::Empty, CellType::Empty, CellType::Two, CellType::Two, CellType::Two],
        [CellType::Empty, CellType::Two, CellType::Zero, CellType::Two, CellType::Empty],
        [CellType::Empty, CellType::Three, CellType::Three, CellType::Three, CellType::Empty],
    ];
    for row in 0..5 {
        for col in 0..5 {
            assert_eq!(game.cell(row + 1, col + 1), want[row][col], "cell {} {}", row, col);
        }
    }
}

#[test]
fn border_ring_is_blank_and_closed() {
    for (width, height) in [(5usize, 5usize), (6, 5), (5, 8)] {
        let task: String = std::iter::repeat('a').take(width * height).collect();
        let game = Game::new(width, height, &task);
        let (h, w) = (game.height(), game.width());
        assert_eq!((h, w), (height + 2, width + 2));
        for row in 0..h {
            for col in 0..w {
                let ring = row == 0 || row == h - 1 || col == 0 || col == w - 1;
                if ring {
                    assert_eq!(game.cell(row, col), CellType::Empty);
                }
            }
        }
        for row in 0..=h {
            for col in 0..w {
                let ring = row == 0 || row == h || col == 0 || col == w - 1;
                let want = if ring { LinkType::Unlink } else { LinkType::LMaybe };
                assert_eq!(game.hlink(row, col), want, "hlink {} {}", row, col);
            }
        }
        for row in 0..h {
            for col in 0..=w {
                let ring = row == 0 || row == h - 1 || col == 0 || col == w;
                let want = if ring { LinkType::Unlink } else { LinkType::LMaybe };
                assert_eq!(game.vlink(row, col), want, "vlink {} {}", row, col);
            }
        }
        for row in 0..2 * h {
            for col in 0..2 * w {
                let ring = row == 0 || row == 2 * h - 1 || col == 0 || col == 2 * w - 1;
                let want = if ring { CornerType::CZero } else { CornerType::CMaybe };
                assert_eq!(game.corner(row, col), want, "corner {} {}", row, col);
            }
        }
    }
}

#[test]
fn try_new_names_each_error() {
    assert_eq!(Game::try_new(4, 5, "t").err(), Some(TaskError::TooSmall));
    assert_eq!(Game::try_new(5, 4, "t").err(), Some(TaskError::TooSmall));
    assert_eq!(Game::try_new(usize::MAX, 5, "a").err(), Some(TaskError::TooLarge));
    assert_eq!(Game::try_new(5, 5, "b2b2a1d222a202b333A").err(), Some(TaskError::Symbol));
    assert_eq!(Game::try_new(5, 5, "b2b2a1d222a202b3334").err(), Some(TaskError::Symbol));
    assert_eq!(Game::try_new(5, 5, "b2b2a1d222a202b333\u{e9}").err(), Some(TaskError::Symbol));
    assert_eq!(Game::try_new(5, 5, "b2b2a1d222a202b333").err(), Some(TaskError::Length));
    assert_eq!(Game::try_new(5, 5, "b2b2a1d222a202b333b").err(), Some(TaskError::Length));
    assert_eq!(Game::try_new(5, 5, "").err(), Some(TaskError::Length));
    assert!(Game::try_new(5, 5, TASK).is_ok());
    assert!(Game::try_new(5, 5, "y").is_ok());
    assert!(Game::try_new(5, 6, "zd").is_ok());
}

#[test]
fn scenario_apply_reapply_and_out_of_bounds() {
    let mut game = Game::new(5, 5, TASK);
    let rule = Rule::new("zero", ZERO_RULE);
    assert_eq!(game.cell(4, 3), CellType::Zero);
    let res = game.try_apply_rule(&rule, 4, 3);
    assert_eq!(res, Some(true));
    assert_eq!(game.hlink(4, 3), LinkType::Unlink);
    assert_eq!(game.hlink(5, 3), LinkType::Unlink);
    assert_eq!(game.vlink(4, 3), LinkType::Unlink);
    assert_eq!(game.vlink(4, 4), LinkType::Unlink);
    assert_eq!(game.hlink(4, 4), LinkType::LMaybe);
    assert_eq!(game.vlink(4, 5), LinkType::LMaybe);
    let res = game.try_apply_rule(&rule, 4, 3);
    assert_eq!(res, Some(false));
    let res = game.try_apply_rule(&rule, 4, 4);
    assert_eq!(res, None);
}

#[test]
fn rule_does_not_apply_where_the_input_is_not_satisfied() {
    let mut game = Game::new(5, 5, TASK);
    let rule = Rule::new("zero", ZERO_RULE);
    assert!(!game.matches_rule(&rule, 3, 3));
    assert_eq!(game.try_apply_rule(&rule, 3, 3), None);
    assert_eq!(game.try_apply_rule(&rule, 1, 1), None);
    assert_eq!(game.hlink(3, 3), LinkType::LMaybe);
    assert_eq!(game.apply_rule(&rule, 3, 3), Ok(None));
}

#[test]
fn placements_outside_the_grid_give_none() {
    let mut game = Game::new(5, 5, "y");
    let rule = Rule::new("any", "+.......+\n.       .\n.       .\n.       .\n+.......+\n=>\n+.......+\n.       .\n.       .\n.       .\n+.......+");
    assert_eq!(game.try_apply_rule(&rule, 6, 6), Some(false));
    assert_eq!(game.try_apply_rule(&rule, 7, 0), None);
    assert_eq!(game.try_apply_rule(&rule, 0, 7), None);
    assert_eq!(game.try_apply_rule(&rule, usize::MAX, usize::MAX), None);
    assert_eq!(game.try_apply_rule(&rule, 0, 0), Some(false));
}

fn states(game: &Game) -> (Vec<CellType>, Vec<LinkType>, Vec<LinkType>, Vec<CornerType>) {
    let (h, w) = (game.height(), game.width());
    let mut cells = Vec::new();
    let mut hlinks = Vec::new();
    let mut vlinks = Vec::new();
    let mut corners = Vec::new();
    for row in 0..h {
        for col in 0..w {
            cells.push(game.cell(row, col));
        }
        for col in 0..=w {
            vlinks.push(game.vlink(row, col));
        }
    }
    for row in 0..=h {
        for col in 0..w {
            hlinks.push(game.hlink(row, col));
        }
    }
    for row in 0..2 * h {
        for col in 0..2 * w {
            corners.push(game.corner(row, col));
        }
    }
    (cells, hlinks, vlinks, corners)
}

#[test]
fn narrowing_never_widens() {
    let mut game = Game::new(5, 5, TASK);
    let zero = Rule::new("zero", ZERO_RULE);
    // Around a cell with the label 3 that has an unlinked edge above it, the other three
    // edges are linked and the two upper corners have degree one.
    let three = Rule::new(
        "three",
        "+       +\n.       .\n.   3   .\n.       .\n+.......+\n=>\n+       +\n$ 1   1 $\n$   3   $\n$       $\n+=======+",
    );
    let mut changed = 0;
    for rule in [&zero, &three] {
        for row in 0..game.height() {
            for col in 0..game.width() {
                let before = states(&game);
                let res = game.apply_rule(rule, row, col);
                let after = states(&game);
                assert!(before.0.iter().zip(&after.0).all(|(b, a)| a <= b));
                assert!(before.1.iter().zip(&after.1).all(|(b, a)| a <= b));
                assert!(before.2.iter().zip(&after.2).all(|(b, a)| a <= b));
                assert!(before.3.iter().zip(&after.3).all(|(b, a)| a <= b));
                match res {
                    Ok(Some(true)) => {
                        assert!(before != after);
                        changed += 1;
                    }
                    _ => assert!(before == after),
                }
                if let Ok(Some(_)) = res {
                    assert_eq!(game.apply_rule(rule, row, col), Ok(Some(false)));
                }
            }
        }
    }
    assert_eq!(changed, 2);
    // Below the label 0 stands a label 3, in the last row of cells.
    assert_eq!(game.hlink(6, 2), LinkType::LMaybe);
    assert_eq!(game.hlink(5, 3), LinkType::Unlink);
    assert_eq!(game.hlink(6, 3), LinkType::Link);
    assert_eq!(game.vlink(5, 3), LinkType::Link);
    assert_eq!(game.vlink(5, 4), LinkType::Link);
    assert_eq!(game.corner(10, 6), CornerType::COne);
    assert_eq!(game.corner(10, 7), CornerType::COne);
    assert_eq!(game.corner(11, 6), CornerType::CMaybe);
}

#[test]
fn rule_larger_than_the_grid_applies_nowhere() {
    let mut game = Game::new(5, 5, "y");
    let row = format!("+{}", ".......+".repeat(8));
    let side = format!(".{}", "       .".repeat(8));
    let wide = format!("{0}\n{1}\n{1}\n{1}\n{0}", row, side);
    let rule = Rule::new("wide", &format!("{0}\n=>\n{0}", wide));
    assert_eq!((rule.rule_in().height(), rule.rule_in().width()), (1, 8));
    let tall = rule.rotated_90();
    assert_eq!((tall.rule_in().height(), tall.rule_in().width()), (8, 1));
    for row in 0..9 {
        for col in 0..9 {
            assert_eq!(game.try_apply_rule(&rule, row, col), None);
            assert_eq!(game.try_apply_rule(&tall, row, col), None);
        }
    }
    // A rule of the width of the grid fits in one column only.
    let row = format!("+{}", ".......+".repeat(7));
    let side = format!(".{}", "       .".repeat(7));
    let full = format!("{0}\n{1}\n{1}\n{1}\n{0}", row, side);
    let rule = Rule::new("full", &format!("{0}\n=>\n{0}", full));
    assert_eq!(game.try_apply_rule(&rule, 3, 0), Some(false));
    assert_eq!(game.try_apply_rule(&rule, 3, 1), None);
}

#[test]
fn contradiction_is_told_apart_from_no_match() {
    let mut game = Game::new(5, 5, TASK);
    // The output asks for a linked edge on the closed ring.
    let rule = Rule::new("bad", "+.......+\n.       .\n.       .\n.       .\n+.......+\n=>\n+=======+\n.       .\n.       .\n.       .\n+.......+");
    assert!(game.matches_rule(&rule, 0, 0));
    assert!(!game.agrees_with(&rule, 0, 0));
    assert_eq!(game.apply_rule(&rule, 0, 0), Err(Contradiction));
    assert_eq!(game.hlink(0, 0), LinkType::Unlink);
    assert!(game.agrees_with(&rule, 2, 2));
    assert!(!game.agrees_with(&rule, 7, 7));
    assert!(!game.agrees_with(&rule, 2, usize::MAX));
    assert_eq!(game.apply_rule(&rule, 7, 7), Ok(None));
    assert_eq!(game.apply_rule(&rule, 2, 2), Ok(Some(true)));
    assert_eq!(game.hlink(2, 2), LinkType::Link);
    assert_eq!(game.apply_rule(&rule, 2, 2), Ok(Some(false)));
}

#[test]
fn single_positions_can_be_narrowed() {
    let mut game = Game::new(5, 5, TASK);
    assert!(game.narrow_cell(1, 1, CellType::Three));
    assert_eq!(game.cell(1, 1), CellType::Three);
    assert!(!game.narrow_cell(1, 1, CellType::Empty));
    assert!(game.narrow_hlink(2, 2, LinkType::Link));
    assert!(!game.narrow_hlink(2, 2, LinkType::Link));
    assert_eq!(game.hlink(2, 2), LinkType::Link);
    assert!(game.narrow_vlink(2, 2, LinkType::Unlink));
    assert_eq!(game.vlink(2, 2), LinkType::Unlink);
    assert!(game.narrow_corner(3, 3, CornerType::Even));
    assert!(game.narrow_corner(3, 3, CornerType::Less));
    assert_eq!(game.corner(3, 3), CornerType::CZero);
    assert!(!game.narrow_corner(0, 0, CornerType::Less));
}
