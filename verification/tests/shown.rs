use grid_rules::game::Game;
use grid_rules::pattern::HalfRule;
use grid_rules::render::full_row;
use grid_rules::rule::Rule;

const TASK: &str = "b2b2a1d222a202b333a";

const SKEW: &str = "\
+=======+       +
  0   1   2   E  
$   1       2   .
  L   G       0  
+.......+=======+";

const ZERO_RULE: &str = "\
+.......+.......+.......+.......+
.               .               .
.   0   .       .       .       .
.               .               .
+.......+.......+.......+.......+
=>
+       +.......+.......+.......+
.               .               .
    0           .       .       .
.               .               .
+       +.......+.......+.......+
";

fn text(bytes: Vec<u8>) -> String {
    String::from_utf8(bytes).unwrap()
}

#[test]
fn cells_are_shown_in_a_frame() {
    let game = Game::new(5, 5, TASK);
    let want = "
+-----------+
|     2     |
| 2   1     |
|     2 2 2 |
|   2 0 2   |
|   3 3 3   |
+-----------+

";
    assert_eq!(text(game.cells_text()), want);
}

#[test]
fn cells_and_links_are_shown_together() {
    let mut game = Game::new(5, 5, TASK);
    let want = "
 +...+...+...+...+...+
 .   .   . 2 .   .   .
 +...+...+...+...+...+
 . 2 .   . 1 .   .   .
 +...+...+...+...+...+
 .   .   . 2 . 2 . 2 .
 +...+...+...+...+...+
 .   . 2 . 0 . 2 .   .
 +...+...+...+...+...+
 .   . 3 . 3 . 3 .   .
 +...+...+...+...+...+

";
    assert_eq!(text(game.cells_and_links_text()), want);
    let rule = Rule::new("zero", ZERO_RULE);
    assert_eq!(game.try_apply_rule(&rule, 4, 3), Some(true));
    assert!(game.narrow_vlink(1, 3, grid_rules::element::LinkType::Link));
    let want = "
 +...+...+...+...+...+
 .   .   | 2 .   .   .
 +...+...+...+...+...+
 . 2 .   . 1 .   .   .
 +...+...+...+...+...+
 .   .   . 2 . 2 . 2 .
 +...+...+   +...+...+
 .   . 2   0   2 .   .
 +...+...+   +...+...+
 .   . 3 . 3 . 3 .   .
 +...+...+...+...+...+

";
    assert_eq!(text(game.cells_and_links_text()), want);
}

#[test]
fn full_text_shows_every_layer_inside_the_border() {
    let mut game = Game::new(5, 5, TASK);
    let rule = Rule::new("zero", ZERO_RULE);
    assert_eq!(game.try_apply_rule(&rule, 4, 3), Some(true));
    assert!(game.narrow_corner(8, 6, grid_rules::element::CornerType::Even));
    let shown = text(game.full_text());
    let lines: Vec<&str> = shown.lines().collect();
    assert_eq!(lines.len(), 21);
    assert!(shown.ends_with("+\n"));
    assert_eq!(lines[0], "+.......+.......+.......+.......+.......+");
    assert_eq!(lines[1], ".       .       .       .       .       .");
    assert_eq!(lines[2], ".       .       .   2   .       .       .");
    assert_eq!(lines[12], "+.......+.......+       +.......+.......+");
    assert_eq!(lines[13], ".       .         E             .       .");
    assert_eq!(lines[14], ".       .   2       0       2   .       .");
    assert_eq!(lines[16], "+.......+.......+       +.......+.......+");
    assert_eq!(lines[18], ".       .   3   .   3   .   3   .       .");
    assert_eq!(lines[20], "+.......+.......+.......+.......+.......+");
}

#[test]
fn full_rows_of_a_pattern_are_its_drawing() {
    let p = HalfRule::new(SKEW);
    let rows: Vec<String> = (0..5).map(|row| text(p.full_row(row))).collect();
    assert_eq!(
        rows,
        vec![
            "+=======+       +",
            "$ 0   1   2   E .",
            "$   1       2   .",
            "$ L   G       0 .",
            "+.......+=======+",
        ]
    );
    assert!(HalfRule::new(&rows.join("\n")).same(&p));
    let turned = p.rotated_90();
    let rows: Vec<String> = (0..9).map(|row| text(turned.full_row(row))).collect();
    assert!(HalfRule::new(&rows.join("\n")).same(&turned));
    assert_eq!(rows[0], "+.......+");
    assert_eq!(rows[1], "  E   0 $");
    assert_eq!(rows[2], "    2   $");
    assert_eq!(rows[8], "+=======+");
}

#[test]
fn drawing_is_read_back() {
    let p = HalfRule::new(SKEW);
    let drawn = p.drawing();
    assert_eq!(
        text(drawn.clone()),
        "+=======+       +\n$ 0   1   2   E .\n$   1       2   .\n$ L   G       0 .\n+.......+=======+\n"
    );
    assert!(HalfRule::parse(&drawn).unwrap() == p);
    for q in [p.rotated_90(), p.rotated_180(), p.reversed_lr(), p.reversed_ud()] {
        assert!(HalfRule::parse(&q.drawing()).unwrap() == q);
    }
    let flat = HalfRule::new("+=======+.......+");
    assert_eq!(text(flat.drawing()), "+=======+.......+\n");
    assert!(HalfRule::parse(&flat.drawing()).unwrap() == flat);
}

#[test]
fn full_row_may_leave_out_the_outer_columns() {
    let p = HalfRule::new(SKEW);
    let row = |row: usize, trim: bool| {
        text(full_row(p.height(), p.width(), p.cells(), p.hlinks(), p.vlinks(), p.corners(), row, trim))
    };
    assert_eq!(row(0, false), "+=======+       +");
    assert_eq!(row(0, true), "+");
    assert_eq!(row(2, true), "");
    assert_eq!(row(1, true), "");
    let wide = HalfRule::new("+=======+       +.......+");
    let row = |row: usize, trim: bool| {
        text(full_row(
            wide.height(),
            wide.width(),
            wide.cells(),
            wide.hlinks(),
            wide.vlinks(),
            wide.corners(),
            row,
            trim,
        ))
    };
    assert_eq!(row(0, true), "+       +");
    let none = HalfRule::new("+");
    assert_eq!(text(none.full_row(0)), "+");
}

#[test]
fn rule_is_shown_with_its_patterns_side_by_side() {
    let rule = Rule::new("zero \u{e9}", ZERO_RULE);
    let want = "Rule \"zero \u{e9}\":
+.......+.......+.......+.......+      +       +.......+.......+.......+
.       .       .       .       .                      .       .       .
.   0   .       .       .       .  =>      0           .       .       .
.       .       .       .       .                      .       .       .
+.......+.......+.......+.......+      +       +.......+.......+.......+
";
    assert_eq!(text(rule.text()), want);
    assert_eq!(
        text(rule.row_text(2)),
        ".   0   .       .       .       .  =>      0           .       .       .\n"
    );
}
