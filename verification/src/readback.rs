//! What is drawn can be read: the drawing of a pattern is a diagram of that
//! pattern.

use crate::ascii::{CARRIAGE_RETURN, LINE_FEED, PLUS, SPACE};
use crate::diagram::{
    decoded, diagram, drawn_height, drawn_layers, drawn_symbols, drawn_width, glyph, Alphabet,
    CellSymbols, CornerSymbols, DiagramError, HLinkSymbols, VLinkSymbols,
};
use crate::element::{CellType, CornerType, LinkType};
use crate::layer::rect;
use crate::pattern::Layers;
use crate::render::{
    cell_block, cell_line, corner_block, corner_line, drawn, hlink_line, repeated, shown_row,
    shown_rows,
};
use crate::text::{ink_end, ink_start, line_end, lines, lines_from, space_before, space_len, trim};
use vstd::prelude::*;

verus! {

/// Every byte of the text is a printable character of one byte.
pub open spec fn all_plain(s: Seq<u8>) -> bool {
    forall|j: int| 0 <= j < s.len() ==> SPACE <= #[trigger] s[j] < 127
}

/// A line of horizontal links for `to` columns has `8 * to + 1` printable
/// bytes, and a plus sign at each end.
proof fn lemma_hlink_line(hl: Seq<Seq<LinkType>>, r: int, to: int)
    requires
        0 <= to,
    ensures
        hlink_line(hl, r, 0, to).len() == 8 * to + 1,
        all_plain(hlink_line(hl, r, 0, to)),
        hlink_line(hl, r, 0, to)[0] == PLUS,
        hlink_line(hl, r, 0, to)[8 * to] == PLUS,
    decreases to,
{
    if to > 0 {
        lemma_hlink_line(hl, r, to - 1);
        HLinkSymbols::lemma_glyph(hl[r][to - 1]);
        let before = hlink_line(hl, r, 0, to - 1);
        let line = hlink_line(hl, r, 0, to);
        assert forall|j: int| 0 <= j < line.len() implies SPACE <= #[trigger] line[j] < 127 by {
            if j < before.len() {
                assert(line[j] == before[j]);
            }
        }
        assert(line[0] == before[0]);
    }
}

/// A line of horizontal links holds the symbol of column `c` at place
/// `8 * c + 4`.
proof fn lemma_hlink_at(hl: Seq<Seq<LinkType>>, r: int, to: int, c: int)
    requires
        0 <= c < to,
    ensures
        hlink_line(hl, r, 0, to)[8 * c + 4] == HLinkSymbols::glyph_of(hl[r][c]),
    decreases to,
{
    lemma_hlink_line(hl, r, to - 1);
    let before = hlink_line(hl, r, 0, to - 1);
    let line = hlink_line(hl, r, 0, to);
    if c < to - 1 {
        lemma_hlink_at(hl, r, to - 1, c);
        assert(line[8 * c + 4] == before[8 * c + 4]);
    } else {
        assert(line[8 * c + 4] == repeated(HLinkSymbols::glyph_of(hl[r][c]), 7)[3]);
    }
}

/// A line of cells for `to` columns has `8 * to + 1` printable bytes.
proof fn lemma_cell_line(cells: Seq<Seq<CellType>>, vl: Seq<Seq<LinkType>>, r: int, to: int)
    requires
        1 <= to,
    ensures
        cell_line(cells, vl, r, 0, to).len() == 8 * to + 1,
        all_plain(cell_line(cells, vl, r, 0, to)),
    decreases to,
{
    let line = cell_line(cells, vl, r, 0, to);
    let block = cell_block(cells, vl, r, to - 1);
    CellSymbols::lemma_glyph(cells[r][to - 1]);
    VLinkSymbols::lemma_glyph(vl[r][to]);
    VLinkSymbols::lemma_glyph(vl[r][0]);
    if to > 1 {
        lemma_cell_line(cells, vl, r, to - 1);
        let before = cell_line(cells, vl, r, 0, to - 1);
        assert forall|j: int| 0 <= j < line.len() implies SPACE <= #[trigger] line[j] < 127 by {
            if j < before.len() {
                assert(line[j] == before[j]);
            } else {
                assert(line[j] == block[j - before.len()]);
            }
        }
    } else {
        assert forall|j: int| 0 <= j < line.len() implies SPACE <= #[trigger] line[j] < 127 by {
            if j >= 1 {
                assert(line[j] == block[j - 1]);
            }
        }
    }
}

/// A line of cells holds the symbol of the cell of column `c` at place
/// `8 * c + 4`, between the symbols of the links to its left and to its
/// right at the places `8 * c` and `8 * c + 8`.
proof fn lemma_cell_at(cells: Seq<Seq<CellType>>, vl: Seq<Seq<LinkType>>, r: int, to: int, c: int)
    requires
        0 <= c < to,
    ensures
        cell_line(cells, vl, r, 0, to)[8 * c + 4] == CellSymbols::glyph_of(cells[r][c]),
        cell_line(cells, vl, r, 0, to)[8 * c] == VLinkSymbols::glyph_of(vl[r][c]),
        cell_line(cells, vl, r, 0, to)[8 * c + 8] == VLinkSymbols::glyph_of(vl[r][c + 1]),
    decreases to,
{
    let line = cell_line(cells, vl, r, 0, to);
    let block = cell_block(cells, vl, r, to - 1);
    if to > 1 {
        lemma_cell_line(cells, vl, r, to - 1);
        let before = cell_line(cells, vl, r, 0, to - 1);
        if c < to - 1 {
            lemma_cell_at(cells, vl, r, to - 1, c);
            assert(line[8 * c + 4] == before[8 * c + 4]);
            assert(line[8 * c] == before[8 * c]);
            assert(line[8 * c + 8] == before[8 * c + 8]);
        } else {
            lemma_cell_at(cells, vl, r, to - 1, c - 1);
            assert(line[8 * c] == before[8 * (c - 1) + 8]);
            assert(line[8 * c + 4] == block[3]);
            assert(line[8 * c + 8] == block[7]);
        }
    } else {
        assert(line[0] == VLinkSymbols::glyph_of(vl[r][0]));
        assert(line[4] == block[3]);
        assert(line[8] == block[7]);
    }
}

/// A line of corners for `to` columns has `8 * to + 1` printable bytes.
proof fn lemma_corner_line(ks: Seq<Seq<CornerType>>, vl: Seq<Seq<LinkType>>, r: int, to: int)
    requires
        1 <= to,
    ensures
        corner_line(ks, vl, r, 0, to).len() == 8 * to + 1,
        all_plain(corner_line(ks, vl, r, 0, to)),
    decreases to,
{
    let line = corner_line(ks, vl, r, 0, to);
    let block = corner_block(ks, vl, r, to - 1);
    CornerSymbols::lemma_glyph(ks[r][2 * (to - 1)]);
    CornerSymbols::lemma_glyph(ks[r][2 * (to - 1) + 1]);
    VLinkSymbols::lemma_glyph(vl[r / 2][to]);
    VLinkSymbols::lemma_glyph(vl[r / 2][0]);
    if to > 1 {
        lemma_corner_line(ks, vl, r, to - 1);
        let before = corner_line(ks, vl, r, 0, to - 1);
        assert forall|j: int| 0 <= j < line.len() implies SPACE <= #[trigger] line[j] < 127 by {
            if j < before.len() {
                assert(line[j] == before[j]);
            } else {
                assert(line[j] == block[j - before.len()]);
            }
        }
    } else {
        assert forall|j: int| 0 <= j < line.len() implies SPACE <= #[trigger] line[j] < 127 by {
            if j >= 1 {
                assert(line[j] == block[j - 1]);
            }
        }
    }
}

/// A line of corners holds the symbols of the two corners of column `c` at
/// the places `8 * c + 2` and `8 * c + 6`.
proof fn lemma_corner_at(ks: Seq<Seq<CornerType>>, vl: Seq<Seq<LinkType>>, r: int, to: int, c: int)
    requires
        0 <= c < to,
    ensures
        corner_line(ks, vl, r, 0, to)[8 * c + 2] == CornerSymbols::glyph_of(ks[r][2 * c]),
        corner_line(ks, vl, r, 0, to)[8 * c + 6] == CornerSymbols::glyph_of(ks[r][2 * c + 1]),
    decreases to,
{
    let line = corner_line(ks, vl, r, 0, to);
    let block = corner_block(ks, vl, r, to - 1);
    if to > 1 {
        lemma_corner_line(ks, vl, r, to - 1);
        let before = corner_line(ks, vl, r, 0, to - 1);
        if c < to - 1 {
            lemma_corner_at(ks, vl, r, to - 1, c);
            assert(line[8 * c + 2] == before[8 * c + 2]);
            assert(line[8 * c + 6] == before[8 * c + 6]);
        } else {
            assert(line[8 * c + 2] == block[1]);
            assert(line[8 * c + 6] == block[5]);
        }
    } else {
        assert(line[2] == block[1]);
        assert(line[6] == block[5]);
    }
}

/// Every full row of a pattern with a column has `8 * width + 1` printable
/// bytes, and the rows of horizontal links have a plus sign at each end.
proof fn lemma_row(p: Layers, i: int)
    requires
        p.width >= 1,
        0 <= i,
    ensures
        shown_row(p, i, false).len() == 8 * (p.width as int) + 1,
        all_plain(shown_row(p, i, false)),
        i % 4 == 0 ==> shown_row(p, i, false)[0] == PLUS && shown_row(
            p,
            i,
            false,
        )[8 * (p.width as int)] == PLUS,
{
    let w = p.width as int;
    if i % 4 == 0 {
        lemma_hlink_line(p.hlinks, i / 4, w);
    } else if i % 4 == 2 {
        lemma_cell_line(p.cells, p.vlinks, i / 4, w);
    } else {
        lemma_corner_line(p.corners, p.vlinks, i / 2, w);
    }
}

/// The first `n` of the rows, each with a line feed after it.
pub open spec fn stacked(rows: Seq<Seq<u8>>, n: int) -> Seq<u8>
    decreases n,
{
    if n <= 0 {
        Seq::empty()
    } else {
        stacked(rows, n - 1) + rows[n - 1] + seq![LINE_FEED]
    }
}

/// Whether the rows can be told apart again after they were stacked: none
/// is empty, none holds a line feed, and none ends with a carriage return.
pub open spec fn stackable(rows: Seq<Seq<u8>>) -> bool {
    forall|i: int|
        0 <= i < rows.len() ==> (#[trigger] rows[i]).len() > 0 && rows[i].last() != CARRIAGE_RETURN
            && forall|j: int| 0 <= j < rows[i].len() ==> #[trigger] rows[i][j] != LINE_FEED
}

/// The first rows of a stack are the start of the whole stack, and row `i`
/// and a line feed follow them.
proof fn lemma_stacked_start(rows: Seq<Seq<u8>>, i: int, n: int)
    requires
        0 <= i < n <= rows.len(),
    ensures
        stacked(rows, i).len() + rows[i].len() + 1 == stacked(rows, i + 1).len(),
        stacked(rows, i + 1).len() <= stacked(rows, n).len(),
        stacked(rows, n).subrange(
            stacked(rows, i).len() as int,
            (stacked(rows, i).len() + rows[i].len()) as int,
        ) == rows[i],
        stacked(rows, n)[(stacked(rows, i).len() + rows[i].len()) as int] == LINE_FEED,
    decreases n,
{
    let all = stacked(rows, n);
    let before = stacked(rows, n - 1);
    if i == n - 1 {
        assert(all.subrange(before.len() as int, (before.len() + rows[i].len()) as int)
            =~= rows[i]);
    } else {
        lemma_stacked_start(rows, i, n - 1);
        let s = stacked(rows, i).len() as int;
        assert(all.subrange(s, s + rows[i].len()) =~= before.subrange(s, s + rows[i].len()));
        assert(all[s + rows[i].len()] == before[s + rows[i].len()]);
    }
}

/// The place of the next line feed, where none stands before it.
proof fn lemma_line_end(s: Seq<u8>, from: int, end: int)
    requires
        0 <= from <= end <= s.len(),
        forall|j: int| from <= j < end ==> #[trigger] s[j] != LINE_FEED,
        end == s.len() || s[end] == LINE_FEED,
    ensures
        line_end(s, from) == end,
    decreases end - from,
{
    if from < end {
        lemma_line_end(s, from + 1, end);
    }
}

/// The first line of a text from `from` on, where it is known to end at
/// `end` and not to end with a carriage return.
proof fn lemma_first_line(s: Seq<u8>, from: int, end: int)
    requires
        0 <= from < end <= s.len(),
        forall|j: int| from <= j < end ==> #[trigger] s[j] != LINE_FEED,
        end == s.len() || s[end] == LINE_FEED,
        s[end - 1] != CARRIAGE_RETURN,
    ensures
        lines_from(s, from) == if end == s.len() {
            seq![s.subrange(from, end)]
        } else {
            seq![s.subrange(from, end)] + lines_from(s, end + 1)
        },
{
    lemma_line_end(s, from, end);
    assert(s.subrange(from, end).last() == s[end - 1]);
}

/// The lines of a stack without its last line feed, from row `i` on, are
/// the rows from row `i` on.
proof fn lemma_stacked_lines(rows: Seq<Seq<u8>>, i: int)
    requires
        stackable(rows),
        0 <= i < rows.len(),
    ensures
        lines_from(stacked(rows, rows.len() as int).drop_last(), stacked(rows, i).len() as int)
            == rows.subrange(i, rows.len() as int),
    decreases rows.len() - i,
{
    let n = rows.len() as int;
    let text = stacked(rows, n).drop_last();
    let from = stacked(rows, i).len() as int;
    let end = from + rows[i].len();
    lemma_stacked_start(rows, i, n);
    lemma_stacked_start(rows, n - 1, n);
    assert(text.subrange(from, end) =~= rows[i]) by {
        assert(stacked(rows, n).subrange(from, end) == rows[i]);
    }
    assert forall|j: int| from <= j < end implies #[trigger] text[j] != LINE_FEED by {
        assert(text[j] == text.subrange(from, end)[j - from]);
        assert(rows[i][j - from] != LINE_FEED);
    }
    assert(text[end - 1] == text.subrange(from, end)[rows[i].len() - 1]);
    assert(rows[i].last() != CARRIAGE_RETURN);
    if i == n - 1 {
        assert(end == text.len());
        lemma_first_line(text, from, end);
        assert(seq![rows[i]] =~= rows.subrange(i, n));
    } else {
        lemma_stacked_start(rows, i, n - 1);
        assert(text[end] == stacked(rows, n)[end]);
        lemma_first_line(text, from, end);
        lemma_stacked_lines(rows, i + 1);
        assert(seq![rows[i]] + rows.subrange(i + 1, n) =~= rows.subrange(i, n));
    }
}

/// The full rows of a pattern from row 0 up to row `n`.
pub open spec fn full_rows(p: Layers, n: int) -> Seq<Seq<u8>> {
    Seq::new(n as nat, |i: int| shown_row(p, i, false))
}

/// The full rows of a pattern with a column can be stacked, and the first of
/// them, each with a line feed after it, are those rows stacked.
proof fn lemma_rows_stacked(p: Layers, n: int, m: int)
    requires
        p.width >= 1,
        0 <= m <= n,
    ensures
        stackable(full_rows(p, n)),
        shown_rows(p, 0, m, false) == stacked(full_rows(p, n), m),
    decreases m,
{
    let rows = full_rows(p, n);
    assert forall|i: int| 0 <= i < rows.len() implies (#[trigger] rows[i]).len() > 0
        && rows[i].last() != CARRIAGE_RETURN && forall|j: int|
        0 <= j < rows[i].len() ==> #[trigger] rows[i][j] != LINE_FEED by {
        lemma_row(p, i);
        assert(SPACE <= rows[i][rows[i].len() - 1]);
        assert forall|j: int| 0 <= j < rows[i].len() implies #[trigger] rows[i][j]
            != LINE_FEED by {
            assert(SPACE <= rows[i][j]);
        }
    }
    if m > 0 {
        lemma_rows_stacked(p, n, m - 1);
    }
}

/// A text that starts and ends with a printable character other than the
/// space, and that holds no byte beyond 126 just before its end, loses
/// nothing but a last line feed when the white space at its ends is taken
/// away.
proof fn lemma_trim_plain(text: Seq<u8>)
    requires
        text.len() >= 5,
        SPACE < text[0] < 127,
        text.last() == LINE_FEED,
        SPACE < text[text.len() - 2] < 127,
        text[text.len() - 3] < 127,
        text[text.len() - 4] < 127,
    ensures
        trim(text) == text.drop_last(),
{
    let len = text.len() as int;
    assert(space_len(text, 0) == 0);
    assert(ink_start(text, 0) == 0);
    assert(space_before(text, 0, len) == 1);
    assert(space_len(text, len - 2) == 0);
    assert(space_len(text, len - 3) != 2);
    assert(space_len(text, len - 4) != 3);
    assert(space_before(text, 0, len - 1) == 0);
    assert(ink_end(text, 0, len - 1) == len - 1);
    assert(ink_end(text, 0, len) == len - 1);
    assert(text.subrange(0, len - 1) =~= text.drop_last());
}

/// The first byte of the first full rows of a pattern is a plus sign.
proof fn lemma_first_byte(p: Layers, n: int)
    requires
        p.width >= 1,
        1 <= n,
    ensures
        shown_rows(p, 0, n, false).len() > 0,
        shown_rows(p, 0, n, false)[0] == PLUS,
    decreases n,
{
    lemma_row(p, 0);
    if n > 1 {
        lemma_first_byte(p, n - 1);
    } else {
        assert(shown_rows(p, 0, 0, false).len() == 0);
    }
}

/// A drawing without the white space at its ends is the drawing without
/// its last line feed.
proof fn lemma_trim(p: Layers)
    requires
        p.width >= 1,
    ensures
        trim(drawn(p)) == drawn(p).drop_last(),
{
    let n = 4 * (p.height as int) + 1;
    let w = p.width as int;
    let text = drawn(p);
    let before = shown_rows(p, 0, n - 1, false);
    let last = shown_row(p, n - 1, false);
    lemma_first_byte(p, n);
    lemma_row(p, n - 1);
    assert(text == before + last + seq![LINE_FEED]);
    let len = text.len() as int;
    assert(text[len - 1] == LINE_FEED);
    assert(text[len - 2] == last[8 * w]);
    assert(text[len - 3] == last[8 * w - 1]);
    assert(text[len - 4] == last[8 * w - 2]);
    lemma_trim_plain(text);
}

/// The drawing of a well-formed pattern with a column at least is a diagram
/// of that pattern.
pub proof fn lemma_drawing_reads_back(p: Layers)
    requires
        p.wf(),
        p.width >= 1,
    ensures
        diagram(drawn(p)) == Ok::<Layers, DiagramError>(p),
{
    let h = p.height as int;
    let w = p.width as int;
    let n = 4 * h + 1;
    lemma_trim(p);
    lemma_rows_stacked(p, n, n);
    lemma_stacked_lines(full_rows(p, n), 0);
    assert(stacked(full_rows(p, n), 0).len() == 0);
    let ls = lines(trim(drawn(p)));
    assert(ls == full_rows(p, n)) by {
        assert(full_rows(p, n).subrange(0, n) =~= full_rows(p, n));
    }
    assert forall|i: int| 0 <= i < n implies (#[trigger] ls[i]).len() == 8 * w + 1 && ls[i]
        == shown_row(p, i, false) by {
        lemma_row(p, i);
    }
    assert(rect(ls, ls.len(), ls[0].len()));
    assert(drawn_height(ls) == p.height);
    assert(drawn_width(ls) == p.width);
    let cells = decoded::<CellSymbols>(ls, p.height, p.width, 4, 2, 8, 4);
    let hlinks = decoded::<HLinkSymbols>(ls, p.height + 1, p.width, 4, 0, 8, 4);
    let vlinks = decoded::<VLinkSymbols>(ls, p.height, p.width + 1, 4, 2, 8, 0);
    let corners = decoded::<CornerSymbols>(ls, 2 * p.height, 2 * p.width, 2, 1, 4, 2);
    assert forall|r: int, c: int| 0 <= r < h && 0 <= c < w implies CellSymbols::symbol(
        #[trigger] glyph(ls, r, c, 4, 2, 8, 4),
    ) == Some(p.cells[r][c]) by {
        assert(ls[4 * r + 2] == shown_row(p, 4 * r + 2, false));
        lemma_cell_at(p.cells, p.vlinks, r, w, c);
        CellSymbols::lemma_glyph(p.cells[r][c]);
    }
    assert forall|r: int, c: int| 0 <= r < h + 1 && 0 <= c < w implies HLinkSymbols::symbol(
        #[trigger] glyph(ls, r, c, 4, 0, 8, 4),
    ) == Some(p.hlinks[r][c]) by {
        assert(ls[4 * r] == shown_row(p, 4 * r, false));
        lemma_hlink_at(p.hlinks, r, w, c);
        HLinkSymbols::lemma_glyph(p.hlinks[r][c]);
    }
    assert forall|r: int, c: int| 0 <= r < h && 0 <= c < w + 1 implies VLinkSymbols::symbol(
        #[trigger] glyph(ls, r, c, 4, 2, 8, 0),
    ) == Some(p.vlinks[r][c]) by {
        assert(ls[4 * r + 2] == shown_row(p, 4 * r + 2, false));
        if c < w {
            lemma_cell_at(p.cells, p.vlinks, r, w, c);
        } else {
            lemma_cell_at(p.cells, p.vlinks, r, w, c - 1);
        }
        VLinkSymbols::lemma_glyph(p.vlinks[r][c]);
    }
    assert forall|r: int, c: int| 0 <= r < 2 * h && 0 <= c < 2 * w implies CornerSymbols::symbol(
        #[trigger] glyph(ls, r, c, 2, 1, 4, 2),
    ) == Some(p.corners[r][c]) by {
        assert(ls[2 * r + 1] == shown_row(p, 2 * r + 1, false));
        assert((2 * r + 1) / 2 == r);
        lemma_corner_at(p.corners, p.vlinks, r, w, c / 2);
        CornerSymbols::lemma_glyph(p.corners[r][c]);
        if c % 2 == 0 {
            assert(4 * c + 2 == 8 * (c / 2) + 2);
            assert(c == 2 * (c / 2));
        } else {
            assert(4 * c + 2 == 8 * (c / 2) + 6);
            assert(c == 2 * (c / 2) + 1);
        }
    }
    assert(cells =~~= p.cells) by {
        assert forall|r: int| 0 <= r < h implies #[trigger] cells[r] =~= p.cells[r] by {
            assert forall|c: int| 0 <= c < w implies cells[r][c] == p.cells[r][c] by {
                assert(CellSymbols::symbol(glyph(ls, r, c, 4, 2, 8, 4)) == Some(p.cells[r][c]));
            }
        }
    }
    assert(hlinks =~~= p.hlinks) by {
        assert forall|r: int| 0 <= r < h + 1 implies #[trigger] hlinks[r] =~= p.hlinks[r] by {
            assert forall|c: int| 0 <= c < w implies hlinks[r][c] == p.hlinks[r][c] by {
                assert(HLinkSymbols::symbol(glyph(ls, r, c, 4, 0, 8, 4)) == Some(
                    p.hlinks[r][c],
                ));
            }
        }
    }
    assert(vlinks =~~= p.vlinks) by {
        assert forall|r: int| 0 <= r < h implies #[trigger] vlinks[r] =~= p.vlinks[r] by {
            assert forall|c: int| 0 <= c < w + 1 implies vlinks[r][c] == p.vlinks[r][c] by {
                assert(VLinkSymbols::symbol(glyph(ls, r, c, 4, 2, 8, 0)) == Some(
                    p.vlinks[r][c],
                ));
            }
        }
    }
    assert(corners =~~= p.corners) by {
        assert forall|r: int| 0 <= r < 2 * h implies #[trigger] corners[r] =~= p.corners[r] by {
            assert forall|c: int| 0 <= c < 2 * w implies corners[r][c] == p.corners[r][c] by {
                assert(CornerSymbols::symbol(glyph(ls, r, c, 2, 1, 4, 2)) == Some(
                    p.corners[r][c],
                ));
            }
        }
    }
    assert(drawn_symbols(ls));
    assert(drawn_layers(ls) == p);
}

} // verus!
