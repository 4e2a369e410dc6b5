//! The text that shows a grid, a pattern or a rule.
//!
//! Every function here gives the bytes of a text. The full rows of a pattern
//! make up its drawing, as `diagram` describes it.

use crate::ascii::{
    BAR, COLON, DOT, EQUALS, GREATER_THAN, LETTER_R, LINE_FEED, MINUS, PLUS, QUOTE, SMALL_E,
    SMALL_L, SMALL_U, SPACE,
};
use crate::diagram::{
    diagram, Alphabet, CellSymbols, CornerSymbols, DiagramError, HLinkSymbols, VLinkSymbols,
};
use crate::element::{CellType, CornerType, LinkType};
use crate::game::Game;
use crate::layer::rows_of;
use crate::pattern::{HalfRule, Layers};
use crate::readback::lemma_drawing_reads_back;
use crate::rule::{Rule, RuleView};
use vstd::prelude::*;

verus! {

/// The byte `b`, `n` times.
pub open spec fn repeated(b: u8, n: nat) -> Seq<u8> {
    Seq::new(n, |i: int| b)
}

/// A line of horizontal links for the columns from `from` up to `to`: a plus
/// sign, and for each column the link's symbol seven times and a plus sign.
pub open spec fn hlink_line(hlinks: Seq<Seq<LinkType>>, r: int, from: int, to: int) -> Seq<u8>
    decreases to - from,
{
    if to <= from {
        seq![PLUS]
    } else {
        hlink_line(hlinks, r, from, to - 1) + repeated(HLinkSymbols::glyph_of(hlinks[r][to - 1]), 7)
            + seq![PLUS]
    }
}

/// What a line of cells holds for one column: the cell's symbol between
/// three spaces on each side, and the symbol of the link to its right.
pub open spec fn cell_block(
    cells: Seq<Seq<CellType>>,
    vlinks: Seq<Seq<LinkType>>,
    r: int,
    c: int,
) -> Seq<u8> {
    seq![
        SPACE,
        SPACE,
        SPACE,
        CellSymbols::glyph_of(cells[r][c]),
        SPACE,
        SPACE,
        SPACE,
        VLinkSymbols::glyph_of(vlinks[r][c + 1]),
    ]
}

/// A line of cells for the columns from `from` up to `to`: the symbol of the
/// link to the left of the first cell, and then the block of each column.
/// Without a column the line is empty.
pub open spec fn cell_line(
    cells: Seq<Seq<CellType>>,
    vlinks: Seq<Seq<LinkType>>,
    r: int,
    from: int,
    to: int,
) -> Seq<u8>
    decreases to - from,
{
    if to <= from {
        Seq::empty()
    } else if to == from + 1 {
        seq![VLinkSymbols::glyph_of(vlinks[r][from])] + cell_block(cells, vlinks, r, from)
    } else {
        cell_line(cells, vlinks, r, from, to - 1) + cell_block(cells, vlinks, r, to - 1)
    }
}

/// What a line of corners holds for one column: the symbols of the two
/// corner quadrants of the column, and the symbol of the link to its right.
pub open spec fn corner_block(
    corners: Seq<Seq<CornerType>>,
    vlinks: Seq<Seq<LinkType>>,
    r: int,
    c: int,
) -> Seq<u8> {
    seq![
        SPACE,
        CornerSymbols::glyph_of(corners[r][2 * c]),
        SPACE,
        SPACE,
        SPACE,
        CornerSymbols::glyph_of(corners[r][2 * c + 1]),
        SPACE,
        VLinkSymbols::glyph_of(vlinks[r / 2][c + 1]),
    ]
}

/// The line of row `r` of the corner layer for the columns from `from` up to
/// `to`, built like a line of cells.
pub open spec fn corner_line(
    corners: Seq<Seq<CornerType>>,
    vlinks: Seq<Seq<LinkType>>,
    r: int,
    from: int,
    to: int,
) -> Seq<u8>
    decreases to - from,
{
    if to <= from {
        Seq::empty()
    } else if to == from + 1 {
        seq![VLinkSymbols::glyph_of(vlinks[r / 2][from])] + corner_block(corners, vlinks, r, from)
    } else {
        corner_line(corners, vlinks, r, from, to - 1) + corner_block(corners, vlinks, r, to - 1)
    }
}

/// Line `row` of the full text of the layers. Every cell takes four lines:
/// one of horizontal links, one of corners, one of cells and one of corners
/// again. With `trim` the first and the last column are left out.
pub open spec fn shown_row(l: Layers, row: int, trim: bool) -> Seq<u8> {
    let from: int = if trim {
        1
    } else {
        0
    };
    let to = l.width - from;
    if row % 4 == 0 {
        hlink_line(l.hlinks, row / 4, from, to)
    } else if row % 4 == 2 {
        cell_line(l.cells, l.vlinks, row / 4, from, to)
    } else {
        corner_line(l.corners, l.vlinks, row / 2, from, to)
    }
}

/// The full rows from `from` up to `to`, each with a line feed after it.
pub open spec fn shown_rows(l: Layers, from: int, to: int, trim: bool) -> Seq<u8>
    decreases to - from,
{
    if to <= from {
        Seq::empty()
    } else {
        shown_rows(l, from, to - 1, trim) + shown_row(l, to - 1, trim) + seq![LINE_FEED]
    }
}

/// The drawing of a pattern: its full rows, each with a line feed after it.
pub open spec fn drawn(l: Layers) -> Seq<u8> {
    shown_rows(l, 0, 4 * (l.height as int) + 1, false)
}

/// The layers that are stored in the given rows.
pub open spec fn layers_of(
    height: usize,
    width: usize,
    cells: Vec<Vec<CellType>>,
    hlinks: Vec<Vec<LinkType>>,
    vlinks: Vec<Vec<LinkType>>,
    corners: Vec<Vec<CornerType>>,
) -> Layers {
    Layers {
        height: height as nat,
        width: width as nat,
        cells: rows_of(cells),
        hlinks: rows_of(hlinks),
        vlinks: rows_of(vlinks),
        corners: rows_of(corners),
    }
}

/// Appends `n` times the byte `b`.
fn push_repeated(out: &mut Vec<u8>, b: u8, n: usize)
    ensures
        final(out)@ == old(out)@ + repeated(b, n as nat),
{
    let ghost before = out@;
    let mut i: usize = 0;
    assert(out@ =~= before + repeated(b, 0));
    while i < n
        invariant
            i <= n,
            out@ == before + repeated(b, i as nat),
        decreases n - i,
    {
        out.push(b);
        i += 1;
        assert(out@ =~= before + repeated(b, i as nat));
    }
}

/// Appends the bytes of `more`.
fn push_all(out: &mut Vec<u8>, more: &[u8])
    ensures
        final(out)@ == old(out)@ + more@,
{
    let ghost before = out@;
    let mut i: usize = 0;
    assert(out@ =~= before + more@.take(0));
    while i < more.len()
        invariant
            i <= more.len(),
            out@ == before + more@.take(i as int),
        decreases more.len() - i,
    {
        out.push(more[i]);
        i += 1;
        assert(out@ =~= before + more@.take(i as int));
    }
    assert(more@.take(more.len() as int) =~= more@);
}

/// Appends a line of horizontal links.
fn push_hlink_line(out: &mut Vec<u8>, hlinks: &Vec<Vec<LinkType>>, r: usize, from: usize, to: usize)
    requires
        r < hlinks.len(),
        to <= hlinks[r as int].len(),
    ensures
        final(out)@ == old(out)@ + hlink_line(rows_of(*hlinks), r as int, from as int, to as int),
{
    let ghost before = out@;
    let ghost hs = rows_of(*hlinks);
    out.push(PLUS);
    let mut c: usize = from;
    assert(out@ =~= before + hlink_line(hs, r as int, from as int, from as int));
    while c < to
        invariant
            from <= c,
            c <= to || (to < from && c == from),
            r < hlinks.len(),
            to <= hlinks[r as int].len(),
            hs == rows_of(*hlinks),
            out@ == before + hlink_line(hs, r as int, from as int, c as int),
        decreases to - c,
    {
        let ghost so_far = out@;
        let b = HLinkSymbols::write(hlinks[r][c]);
        push_repeated(out, b, 7);
        out.push(PLUS);
        c += 1;
        assert(out@ =~= before + hlink_line(hs, r as int, from as int, c as int)) by {
            assert(out@ =~= so_far + repeated(b, 7) + seq![PLUS]);
        }
    }
    assert(to <= from ==> hlink_line(hs, r as int, from as int, to as int) =~= seq![PLUS]);
}

/// Appends a line of cells.
fn push_cell_line(
    out: &mut Vec<u8>,
    cells: &Vec<Vec<CellType>>,
    vlinks: &Vec<Vec<LinkType>>,
    r: usize,
    from: usize,
    to: usize,
)
    requires
        r < cells.len(),
        r < vlinks.len(),
        to <= cells[r as int].len(),
        to < vlinks[r as int].len(),
    ensures
        final(out)@ == old(out)@ + cell_line(
            rows_of(*cells),
            rows_of(*vlinks),
            r as int,
            from as int,
            to as int,
        ),
{
    let ghost before = out@;
    let ghost cs = rows_of(*cells);
    let ghost vs = rows_of(*vlinks);
    let mut c: usize = from;
    assert(out@ =~= before + cell_line(cs, vs, r as int, from as int, from as int));
    while c < to
        invariant
            from <= c,
            c <= to || (to < from && c == from),
            r < cells.len(),
            r < vlinks.len(),
            to <= cells[r as int].len(),
            to < vlinks[r as int].len(),
            cs == rows_of(*cells),
            vs == rows_of(*vlinks),
            out@ == before + cell_line(cs, vs, r as int, from as int, c as int),
        decreases to - c,
    {
        let ghost so_far = out@;
        if c == from {
            out.push(VLinkSymbols::write(vlinks[r][c]));
        }
        push_repeated(out, SPACE, 3);
        out.push(CellSymbols::write(cells[r][c]));
        push_repeated(out, SPACE, 3);
        out.push(VLinkSymbols::write(vlinks[r][c + 1]));
        assert(out@ =~= before + cell_line(cs, vs, r as int, from as int, c + 1)) by {
            let block = cell_block(cs, vs, r as int, c as int);
            if c == from {
                assert(out@ =~= before + (seq![VLinkSymbols::glyph_of(vs[r as int][c as int])]
                    + block));
            } else {
                assert(out@ =~= so_far + block);
            }
        }
        c += 1;
    }
    assert(to <= from ==> cell_line(cs, vs, r as int, from as int, to as int) =~= Seq::<
        u8,
    >::empty());
}

/// Appends the line of one row of the corner layer.
fn push_corner_line(
    out: &mut Vec<u8>,
    corners: &Vec<Vec<CornerType>>,
    vlinks: &Vec<Vec<LinkType>>,
    r: usize,
    from: usize,
    to: usize,
)
    requires
        r < corners.len(),
        r / 2 < vlinks.len(),
        2 * to <= corners[r as int].len(),
        to < vlinks[r as int / 2].len(),
    ensures
        final(out)@ == old(out)@ + corner_line(
            rows_of(*corners),
            rows_of(*vlinks),
            r as int,
            from as int,
            to as int,
        ),
{
    let ghost before = out@;
    let ghost cs = rows_of(*corners);
    let ghost vs = rows_of(*vlinks);
    let mut c: usize = from;
    assert(out@ =~= before + corner_line(cs, vs, r as int, from as int, from as int));
    while c < to
        invariant
            from <= c,
            c <= to || (to < from && c == from),
            r < corners.len(),
            r / 2 < vlinks.len(),
            2 * to <= corners[r as int].len(),
            to < vlinks[r as int / 2].len(),
            cs == rows_of(*corners),
            vs == rows_of(*vlinks),
            out@ == before + corner_line(cs, vs, r as int, from as int, c as int),
        decreases to - c,
    {
        let ghost so_far = out@;
        if c == from {
            out.push(VLinkSymbols::write(vlinks[r / 2][c]));
        }
        out.push(SPACE);
        out.push(CornerSymbols::write(corners[r][2 * c]));
        push_repeated(out, SPACE, 3);
        out.push(CornerSymbols::write(corners[r][2 * c + 1]));
        out.push(SPACE);
        out.push(VLinkSymbols::write(vlinks[r / 2][c + 1]));
        assert(out@ =~= before + corner_line(cs, vs, r as int, from as int, c + 1)) by {
            let block = corner_block(cs, vs, r as int, c as int);
            if c == from {
                assert(out@ =~= before + (seq![
                    VLinkSymbols::glyph_of(vs[r as int / 2][c as int]),
                ] + block));
            } else {
                assert(out@ =~= so_far + block);
            }
        }
        c += 1;
    }
    assert(to <= from ==> corner_line(cs, vs, r as int, from as int, to as int) =~= Seq::<
        u8,
    >::empty());
}

/// Appends line `row` of the full text of the layers that are stored in the
/// given rows.
fn push_full_row(
    out: &mut Vec<u8>,
    height: usize,
    width: usize,
    cells: &Vec<Vec<CellType>>,
    hlinks: &Vec<Vec<LinkType>>,
    vlinks: &Vec<Vec<LinkType>>,
    corners: &Vec<Vec<CornerType>>,
    row: usize,
    trim_left_and_right: bool,
)
    requires
        layers_of(height, width, *cells, *hlinks, *vlinks, *corners).wf(),
        row <= 4 * height,
        trim_left_and_right ==> width >= 1,
    ensures
        final(out)@ == old(out)@ + shown_row(
            layers_of(height, width, *cells, *hlinks, *vlinks, *corners),
            row as int,
            trim_left_and_right,
        ),
{
    let ghost l = layers_of(height, width, *cells, *hlinks, *vlinks, *corners);
    let from: usize = if trim_left_and_right {
        1
    } else {
        0
    };
    let to = width - from;
    if row % 4 == 0 {
        assert(l.hlinks[row as int / 4].len() == width);
        push_hlink_line(out, hlinks, row / 4, from, to);
    } else if row % 4 == 2 {
        assert(l.cells[row as int / 4].len() == width);
        assert(l.vlinks[row as int / 4].len() == width + 1);
        push_cell_line(out, cells, vlinks, row / 4, from, to);
    } else {
        assert(l.corners[row as int / 2].len() == 2 * width);
        assert(l.vlinks[row as int / 2 / 2].len() == width + 1);
        push_corner_line(out, corners, vlinks, row / 2, from, to);
    }
}

/// Line `row` of the full text of the layers that are stored in the given
/// rows. With `trim_left_and_right` the first and the last column are left
/// out.
pub fn full_row(
    height: usize,
    width: usize,
    cells: &Vec<Vec<CellType>>,
    hlinks: &Vec<Vec<LinkType>>,
    vlinks: &Vec<Vec<LinkType>>,
    corners: &Vec<Vec<CornerType>>,
    row: usize,
    trim_left_and_right: bool,
) -> (out: Vec<u8>)
    requires
        layers_of(height, width, *cells, *hlinks, *vlinks, *corners).wf(),
        row <= 4 * height,
        trim_left_and_right ==> width >= 1,
    ensures
        out@ == shown_row(
            layers_of(height, width, *cells, *hlinks, *vlinks, *corners),
            row as int,
            trim_left_and_right,
        ),
{
    let mut out: Vec<u8> = Vec::new();
    push_full_row(
        &mut out,
        height,
        width,
        cells,
        hlinks,
        vlinks,
        corners,
        row,
        trim_left_and_right,
    );
    assert(Seq::<u8>::empty() + out@ =~= out@);
    out
}

impl HalfRule {
    /// The drawing of the pattern, from which `parse` reads it back where
    /// the pattern has a column at least.
    pub fn drawing(&self) -> (out: Vec<u8>)
        requires
            4 * self@.height + 1 <= usize::MAX,
        ensures
            out@ == drawn(self@),
            self@.width >= 1 ==> diagram(out@) == Ok::<Layers, DiagramError>(self@),
    {
        let height = self.height();
        proof {
            if self@.width >= 1 {
                lemma_drawing_reads_back(self@);
            }
        }
        let width = self.width();
        let ghost l = self@;
        let mut out: Vec<u8> = Vec::new();
        let mut row: usize = 0;
        assert(out@ =~= shown_rows(l, 0, 0, false));
        while row < 4 * height + 1
            invariant
                row <= 4 * height + 1,
                l == self@,
                l.wf(),
                height == l.height,
                width == l.width,
                4 * height + 1 <= usize::MAX,
                out@ == shown_rows(l, 0, row as int, false),
            decreases 4 * height + 1 - row,
        {
            let ghost so_far = out@;
            push_full_row(
                &mut out,
                height,
                width,
                self.cells(),
                self.hlinks(),
                self.vlinks(),
                self.corners(),
                row,
                false,
            );
            out.push(LINE_FEED);
            row += 1;
            assert(out@ =~= shown_rows(l, 0, row as int, false)) by {
                assert(out@ =~= so_far + shown_row(l, row - 1, false) + seq![LINE_FEED]);
            }
        }
        out
    }

    /// Line `row` of the drawing of the pattern.
    pub fn full_row(&self, row: usize) -> (out: Vec<u8>)
        requires
            row <= 4 * self@.height,
        ensures
            out@ == shown_row(self@, row as int, false),
    {
        full_row(
            self.height(),
            self.width(),
            self.cells(),
            self.hlinks(),
            self.vlinks(),
            self.corners(),
            row,
            false,
        )
    }
}

/// The line between the two patterns of a rule: an arrow on line `middle`,
/// and spaces on every other line.
pub open spec fn arrow_gap(row: int, middle: int) -> Seq<u8> {
    if row == middle {
        seq![SPACE, SPACE, EQUALS, GREATER_THAN, SPACE, SPACE]
    } else {
        repeated(SPACE, 6)
    }
}

/// Line `row` of the two patterns of a rule: the line of the input pattern,
/// the gap, the line of the output pattern and a line feed.
pub open spec fn rule_row(rule: RuleView, row: int) -> Seq<u8> {
    shown_row(rule.input, row, false) + arrow_gap(row, 2 * (rule.input.height as int)) + shown_row(
        rule.output,
        row,
        false,
    ) + seq![LINE_FEED]
}

/// The first `to` lines of the two patterns of a rule.
pub open spec fn rule_rows(rule: RuleView, to: int) -> Seq<u8>
    decreases to,
{
    if to <= 0 {
        Seq::empty()
    } else {
        rule_rows(rule, to - 1) + rule_row(rule, to - 1)
    }
}

/// The text that shows a rule: a line with its name, and then its two
/// patterns side by side with an arrow between them.
pub open spec fn shown_rule(rule: RuleView) -> Seq<u8> {
    seq![LETTER_R, SMALL_U, SMALL_L, SMALL_E, SPACE, QUOTE] + vstd::utf8::encode_utf8(rule.name)
        + seq![QUOTE, COLON, LINE_FEED] + rule_rows(rule, 4 * (rule.input.height as int) + 1)
}

impl Rule {
    /// Line `row` of the two patterns of the rule.
    pub fn row_text(&self, row: usize) -> (out: Vec<u8>)
        requires
            row <= 4 * self@.input.height,
        ensures
            out@ == rule_row(self@, row as int),
    {
        let rule_in = self.rule_in();
        let rule_out = self.rule_out();
        let height = rule_in.height();
        let mut out = rule_in.full_row(row);
        let ghost left = out@;
        if row == 2 * height {
            push_repeated(&mut out, SPACE, 2);
            out.push(EQUALS);
            out.push(GREATER_THAN);
            push_repeated(&mut out, SPACE, 2);
        } else {
            push_repeated(&mut out, SPACE, 6);
        }
        assert(out@ =~= left + arrow_gap(row as int, 2 * height));
        let right = rule_out.full_row(row);
        push_all(&mut out, right.as_slice());
        out.push(LINE_FEED);
        out
    }

    /// The text that shows the rule.
    pub fn text(&self) -> (out: Vec<u8>)
        requires
            4 * self@.input.height + 1 <= usize::MAX,
        ensures
            out@ == shown_rule(self@),
    {
        let height = self.rule_in().height();
        let mut out: Vec<u8> = Vec::new();
        out.push(LETTER_R);
        out.push(SMALL_U);
        out.push(SMALL_L);
        out.push(SMALL_E);
        out.push(SPACE);
        out.push(QUOTE);
        push_all(&mut out, self.name().as_bytes());
        out.push(QUOTE);
        out.push(COLON);
        out.push(LINE_FEED);
        let ghost head = out@;
        assert(head =~= seq![LETTER_R, SMALL_U, SMALL_L, SMALL_E, SPACE, QUOTE]
            + vstd::utf8::encode_utf8(self@.name) + seq![QUOTE, COLON, LINE_FEED]);
        let rows = 4 * height + 1;
        let mut row: usize = 0;
        assert(out@ =~= head + rule_rows(self@, 0));
        while row < rows
            invariant
                row <= rows,
                rows == 4 * height + 1,
                height == self@.input.height,
                out@ == head + rule_rows(self@, row as int),
            decreases rows - row,
        {
            let ghost so_far = out@;
            let line = self.row_text(row);
            push_all(&mut out, line.as_slice());
            assert(out@ =~= head + rule_rows(self@, row + 1)) by {
                assert(out@ == so_far + rule_row(self@, row as int));
            }
            row += 1;
        }
        out
    }
}

/// The line above and below the cells of a grid: a plus sign, two minus
/// signs for each column inside the border, one more minus sign, a plus sign
/// and a line feed.
pub open spec fn cells_edge(width: nat) -> Seq<u8> {
    seq![PLUS] + repeated(MINUS, (2 * (width - 2)) as nat) + seq![MINUS, PLUS, LINE_FEED]
}

/// A line of the cells of row `r` for the columns from 1 up to `to`: a bar,
/// and a space and the cell's symbol for each column.
pub open spec fn cells_row(cells: Seq<Seq<CellType>>, r: int, to: int) -> Seq<u8>
    decreases to,
{
    if to <= 1 {
        seq![BAR]
    } else {
        cells_row(cells, r, to - 1) + seq![SPACE, CellSymbols::glyph_of(cells[r][to - 1])]
    }
}

/// The lines of the cells of the rows from 1 up to `to`, each closed by a
/// space, a bar and a line feed.
pub open spec fn cells_rows(l: Layers, to: int) -> Seq<u8>
    decreases to,
{
    if to <= 1 {
        Seq::empty()
    } else {
        cells_rows(l, to - 1) + cells_row(l.cells, to - 1, l.width - 1) + seq![
            SPACE,
            BAR,
            LINE_FEED,
        ]
    }
}

/// The text that shows the cells inside the border of a grid, in a frame
/// and between two empty lines.
pub open spec fn shown_cells(l: Layers) -> Seq<u8> {
    seq![LINE_FEED] + cells_edge(l.width) + cells_rows(l, l.height - 1) + cells_edge(l.width)
        + seq![LINE_FEED]
}

/// The symbol of a vertical link in the short text of a grid.
pub open spec fn side_glyph(s: LinkType) -> u8 {
    match s {
        LinkType::LMaybe => DOT,
        LinkType::Link => BAR,
        LinkType::Unlink => SPACE,
    }
}

/// A line of the horizontal links of row `r` for the columns from 1 up to
/// `to`: a space, and a plus sign and three times the link's symbol for each
/// column.
pub open spec fn links_edge(hlinks: Seq<Seq<LinkType>>, r: int, to: int) -> Seq<u8>
    decreases to,
{
    if to <= 1 {
        seq![SPACE]
    } else {
        links_edge(hlinks, r, to - 1) + seq![PLUS] + repeated(
            HLinkSymbols::glyph_of(hlinks[r][to - 1]),
            3,
        )
    }
}

/// A line of the cells of row `r` for the columns from 1 up to `to`, with
/// the vertical links between them: a space, the link to the left of the
/// first of them, and for each column the cell's symbol between two spaces
/// and the link to its right.
pub open spec fn links_row(
    cells: Seq<Seq<CellType>>,
    vlinks: Seq<Seq<LinkType>>,
    r: int,
    to: int,
) -> Seq<u8>
    decreases to,
{
    if to <= 1 {
        seq![SPACE]
    } else {
        let start = if to == 2 {
            seq![SPACE, side_glyph(vlinks[r][1])]
        } else {
            links_row(cells, vlinks, r, to - 1)
        };
        start + seq![
            SPACE,
            CellSymbols::glyph_of(cells[r][to - 1]),
            SPACE,
            side_glyph(vlinks[r][to]),
        ]
    }
}

/// The lines of the rows from 1 up to `to` in the short text of a grid: the
/// horizontal links above the first row, and for each row its cells and the
/// horizontal links below it.
pub open spec fn links_rows(l: Layers, to: int) -> Seq<u8>
    decreases to,
{
    if to <= 1 {
        Seq::empty()
    } else {
        let start = if to == 2 {
            links_edge(l.hlinks, 1, l.width - 1) + seq![PLUS, LINE_FEED]
        } else {
            links_rows(l, to - 1)
        };
        start + links_row(l.cells, l.vlinks, to - 1, l.width - 1) + seq![LINE_FEED] + links_edge(
            l.hlinks,
            to,
            l.width - 1,
        ) + seq![PLUS, LINE_FEED]
    }
}

/// The short text of a grid: its cells and links inside the border, between
/// two empty lines.
pub open spec fn shown_links(l: Layers) -> Seq<u8> {
    seq![LINE_FEED] + links_rows(l, l.height - 1) + seq![LINE_FEED]
}

/// Appends the line above and below the cells of a grid.
fn push_cells_edge(out: &mut Vec<u8>, width: usize)
    requires
        2 <= width,
        2 * width <= usize::MAX,
    ensures
        final(out)@ == old(out)@ + cells_edge(width as nat),
{
    let ghost before = out@;
    out.push(PLUS);
    push_repeated(out, MINUS, 2 * (width - 2));
    out.push(MINUS);
    out.push(PLUS);
    out.push(LINE_FEED);
    assert(out@ =~= before + cells_edge(width as nat));
}

/// Appends a line of horizontal links of the short text of a grid.
fn push_links_edge(out: &mut Vec<u8>, hlinks: &Vec<Vec<LinkType>>, r: usize, to: usize)
    requires
        r < hlinks.len(),
        to <= hlinks[r as int].len(),
    ensures
        final(out)@ == old(out)@ + links_edge(rows_of(*hlinks), r as int, to as int) + seq![
            PLUS,
            LINE_FEED,
        ],
{
    let ghost before = out@;
    let ghost hs = rows_of(*hlinks);
    out.push(SPACE);
    let mut c: usize = 1;
    assert(out@ =~= before + links_edge(hs, r as int, 1));
    while c < to
        invariant
            1 <= c,
            c <= to || (to < 1 && c == 1),
            r < hlinks.len(),
            to <= hlinks[r as int].len(),
            hs == rows_of(*hlinks),
            out@ == before + links_edge(hs, r as int, c as int),
        decreases to - c,
    {
        let ghost so_far = out@;
        out.push(PLUS);
        let b = HLinkSymbols::write(hlinks[r][c]);
        push_repeated(out, b, 3);
        c += 1;
        assert(out@ =~= before + links_edge(hs, r as int, c as int)) by {
            assert(out@ =~= so_far + seq![PLUS] + repeated(b, 3));
        }
    }
    let ghost line = out@;
    out.push(PLUS);
    out.push(LINE_FEED);
    assert(out@ =~= line + seq![PLUS, LINE_FEED]);
}

/// The symbol of a vertical link in the short text of a grid.
fn side(s: LinkType) -> (b: u8)
    ensures
        b == side_glyph(s),
{
    match s {
        LinkType::LMaybe => DOT,
        LinkType::Link => BAR,
        LinkType::Unlink => SPACE,
    }
}

impl Game {
    /// The text that shows the cells inside the border.
    pub fn cells_text(&self) -> (out: Vec<u8>)
        requires
            self@.is_grid(),
        ensures
            out@ == shown_cells(self@),
    {
        let height = self.height();
        let width = self.width();
        let cells = self.cells();
        let ghost l = self@;
        let mut out: Vec<u8> = Vec::new();
        out.push(LINE_FEED);
        push_cells_edge(&mut out, width);
        let ghost head = out@;
        assert(head =~= seq![LINE_FEED] + cells_edge(l.width));
        let mut row: usize = 1;
        assert(out@ =~= head + cells_rows(l, 1));
        while row < height - 1
            invariant
                1 <= row <= height - 1,
                l == self@,
                l.is_grid(),
                height == l.height,
                width == l.width,
                rows_of(*cells) == l.cells,
                out@ == head + cells_rows(l, row as int),
            decreases height - row,
        {
            let ghost so_far = out@;
            assert(l.cells[row as int].len() == width);
            out.push(BAR);
            let mut col: usize = 1;
            assert(out@ =~= so_far + cells_row(l.cells, row as int, 1));
            while col < width - 1
                invariant
                    1 <= col <= width - 1,
                    1 <= row < height - 1,
                    l.is_grid(),
                    height == l.height,
                    width == l.width,
                    rows_of(*cells) == l.cells,
                    l.cells[row as int].len() == width,
                    out@ == so_far + cells_row(l.cells, row as int, col as int),
                decreases width - col,
            {
                let ghost line = out@;
                out.push(SPACE);
                out.push(CellSymbols::write(cells[row][col]));
                col += 1;
                assert(out@ =~= so_far + cells_row(l.cells, row as int, col as int)) by {
                    assert(out@ =~= line + seq![
                        SPACE,
                        CellSymbols::glyph_of(l.cells[row as int][col - 1]),
                    ]);
                }
            }
            let ghost line = out@;
            out.push(SPACE);
            out.push(BAR);
            out.push(LINE_FEED);
            row += 1;
            assert(out@ =~= head + cells_rows(l, row as int)) by {
                assert(out@ =~= line + seq![SPACE, BAR, LINE_FEED]);
            }
        }
        let ghost body = out@;
        push_cells_edge(&mut out, width);
        out.push(LINE_FEED);
        assert(out@ =~= shown_cells(l)) by {
            assert(out@ =~= body + cells_edge(l.width) + seq![LINE_FEED]);
        }
        out
    }

    /// The short text of the grid: its cells and links inside the border.
    pub fn cells_and_links_text(&self) -> (out: Vec<u8>)
        requires
            self@.is_grid(),
        ensures
            out@ == shown_links(self@),
    {
        let height = self.height();
        let width = self.width();
        let cells = self.cells();
        let hlinks = self.hlinks();
        let vlinks = self.vlinks();
        let ghost l = self@;
        let mut out: Vec<u8> = Vec::new();
        out.push(LINE_FEED);
        let ghost head = out@;
        let mut row: usize = 1;
        assert(out@ =~= head + links_rows(l, 1));
        while row < height - 1
            invariant
                1 <= row <= height - 1,
                l == self@,
                l.is_grid(),
                height == l.height,
                width == l.width,
                rows_of(*cells) == l.cells,
                rows_of(*hlinks) == l.hlinks,
                rows_of(*vlinks) == l.vlinks,
                out@ == head + links_rows(l, row as int),
            decreases height - row,
        {
            let ghost so_far = out@;
            assert(l.cells[row as int].len() == width);
            assert(l.vlinks[row as int].len() == width + 1);
            assert(l.hlinks[row as int].len() == width);
            assert(l.hlinks[row + 1].len() == width);
            if row == 1 {
                push_links_edge(&mut out, hlinks, 1, width - 1);
            }
            let ghost start = out@;
            out.push(SPACE);
            let mut col: usize = 1;
            assert(out@ =~= start + links_row(l.cells, l.vlinks, row as int, 1));
            while col < width - 1
                invariant
                    1 <= col <= width - 1,
                    1 <= row < height - 1,
                    l.is_grid(),
                    height == l.height,
                    width == l.width,
                    rows_of(*cells) == l.cells,
                    rows_of(*vlinks) == l.vlinks,
                    l.cells[row as int].len() == width,
                    l.vlinks[row as int].len() == width + 1,
                    out@ == start + links_row(l.cells, l.vlinks, row as int, col as int),
                decreases width - col,
            {
                let ghost line = out@;
                if col == 1 {
                    out.push(side(vlinks[row][1]));
                }
                out.push(SPACE);
                out.push(CellSymbols::write(cells[row][col]));
                out.push(SPACE);
                out.push(side(vlinks[row][col + 1]));
                assert(out@ =~= start + links_row(l.cells, l.vlinks, row as int, col + 1)) by {
                    let block = seq![
                        SPACE,
                        CellSymbols::glyph_of(l.cells[row as int][col as int]),
                        SPACE,
                        side_glyph(l.vlinks[row as int][col + 1]),
                    ];
                    if col == 1 {
                        assert(out@ =~= start + (seq![
                            SPACE,
                            side_glyph(l.vlinks[row as int][1]),
                        ] + block));
                    } else {
                        assert(out@ =~= line + block);
                    }
                }
                col += 1;
            }
            let ghost line = out@;
            out.push(LINE_FEED);
            push_links_edge(&mut out, hlinks, row + 1, width - 1);
            assert(out@ =~= head + links_rows(l, row + 1)) by {
                let cells_line = links_row(l.cells, l.vlinks, row as int, width - 1);
                let below = links_edge(l.hlinks, row + 1, width - 1) + seq![PLUS, LINE_FEED];
                assert(out@ =~= start + cells_line + seq![LINE_FEED] + below);
                if row == 1 {
                    assert(start =~= head + (links_edge(l.hlinks, 1, width - 1) + seq![
                        PLUS,
                        LINE_FEED,
                    ]));
                }
            }
            row += 1;
        }
        out.push(LINE_FEED);
        out
    }

    /// The full text of the grid inside the border: for every row of cells a
    /// line of horizontal links, a line of corners, a line of cells and a
    /// line of corners, and below the last row one more line of horizontal
    /// links.
    pub fn full_text(&self) -> (out: Vec<u8>)
        requires
            self@.is_grid(),
            4 * self@.height <= usize::MAX,
        ensures
            out@ == shown_rows(self@, 4, 4 * self@.height - 3, true),
    {
        let height = self.height();
        let width = self.width();
        let ghost l = self@;
        let mut out: Vec<u8> = Vec::new();
        let mut row: usize = 4;
        assert(out@ =~= shown_rows(l, 4, 4, true));
        while row < 4 * height - 3
            invariant
                4 <= row <= 4 * height - 3,
                l == self@,
                l.is_grid(),
                height == l.height,
                width == l.width,
                4 * height <= usize::MAX,
                out@ == shown_rows(l, 4, row as int, true),
            decreases 4 * height - row,
        {
            let ghost so_far = out@;
            push_full_row(
                &mut out,
                height,
                width,
                self.cells(),
                self.hlinks(),
                self.vlinks(),
                self.corners(),
                row,
                true,
            );
            out.push(LINE_FEED);
            row += 1;
            assert(out@ =~= shown_rows(l, 4, row as int, true)) by {
                assert(out@ =~= so_far + shown_row(l, row - 1, true) + seq![LINE_FEED]);
            }
        }
        out
    }
}

} // verus!
