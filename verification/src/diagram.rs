//! The text form of a pattern.
//!
//! A pattern of height `h` and width `w` is drawn on `4 * h + 1` lines of
//! `8 * w + 1` bytes each. Line `4 * r` holds the horizontal links of row `r`
//! at the columns `8 * c + 4`. Line `4 * r + 2` holds the vertical links of
//! row `r` at the columns `8 * c` and its cells at the columns `8 * c + 4`.
//! The odd line `2 * r + 1` holds row `r` of the corner layer at the columns
//! `4 * c + 2`. What stands at other places is not read.

use crate::ascii::{
    DIGIT_0, DIGIT_1, DIGIT_2, DIGIT_3, DOLLAR, DOT, EQUALS, LETTER_E, LETTER_G, LETTER_L, SPACE,
};
use crate::element::{CellType, CornerType, LinkType};
use crate::layer::{rect, rows_of};
use crate::pattern::Layers;
use crate::text::{lines, trim};
use vstd::prelude::*;

verus! {

/// The symbols of one layer, and the states that they stand for.
pub trait Alphabet {
    /// The states of the layer.
    type State: Copy;

    /// The state that the byte stands for, if it is a symbol of the layer.
    spec fn symbol(b: u8) -> Option<Self::State>;

    /// The symbol that stands for the state.
    spec fn glyph_of(s: Self::State) -> u8;

    /// The state that the byte stands for, if it is a symbol of the layer.
    fn read(b: u8) -> (s: Option<Self::State>)
        ensures
            s == Self::symbol(b),
    ;

    /// The symbol that stands for the state.
    fn write(s: Self::State) -> (b: u8)
        ensures
            b == Self::glyph_of(s),
    ;

    /// The symbol of a state is read back as that state, and it is a
    /// printable character of one byte.
    proof fn lemma_glyph(s: Self::State)
        ensures
            Self::symbol(Self::glyph_of(s)) == Some(s),
            SPACE <= Self::glyph_of(s) < 127,
    ;
}

/// The symbols of cells: a space for a cell without a label, or the label.
pub struct CellSymbols;

/// The symbols of horizontal links: `.` for either, `=` for linked, and a
/// space for unlinked.
pub struct HLinkSymbols;

/// The symbols of vertical links: `.` for either, `$` for linked, and a
/// space for unlinked.
pub struct VLinkSymbols;

/// The symbols of corners: a space for any degree, the degree itself, `E` for
/// not one, `L` for not two and `G` for not zero.
pub struct CornerSymbols;

impl Alphabet for CellSymbols {
    type State = CellType;

    open spec fn symbol(b: u8) -> Option<CellType> {
        if b == SPACE {
            Some(CellType::Empty)
        } else if b == DIGIT_0 {
            Some(CellType::Zero)
        } else if b == DIGIT_1 {
            Some(CellType::One)
        } else if b == DIGIT_2 {
            Some(CellType::Two)
        } else if b == DIGIT_3 {
            Some(CellType::Three)
        } else {
            None
        }
    }

    open spec fn glyph_of(s: CellType) -> u8 {
        match s {
            CellType::Empty => SPACE,
            CellType::Zero => DIGIT_0,
            CellType::One => DIGIT_1,
            CellType::Two => DIGIT_2,
            CellType::Three => DIGIT_3,
        }
    }

    fn read(b: u8) -> (s: Option<CellType>) {
        if b == SPACE {
            Some(CellType::Empty)
        } else if b == DIGIT_0 {
            Some(CellType::Zero)
        } else if b == DIGIT_1 {
            Some(CellType::One)
        } else if b == DIGIT_2 {
            Some(CellType::Two)
        } else if b == DIGIT_3 {
            Some(CellType::Three)
        } else {
            None
        }
    }

    fn write(s: CellType) -> (b: u8) {
        match s {
            CellType::Empty => SPACE,
            CellType::Zero => DIGIT_0,
            CellType::One => DIGIT_1,
            CellType::Two => DIGIT_2,
            CellType::Three => DIGIT_3,
        }
    }

    proof fn lemma_glyph(s: CellType) {
    }
}

impl Alphabet for HLinkSymbols {
    type State = LinkType;

    open spec fn symbol(b: u8) -> Option<LinkType> {
        if b == DOT {
            Some(LinkType::LMaybe)
        } else if b == EQUALS {
            Some(LinkType::Link)
        } else if b == SPACE {
            Some(LinkType::Unlink)
        } else {
            None
        }
    }

    open spec fn glyph_of(s: LinkType) -> u8 {
        match s {
            LinkType::LMaybe => DOT,
            LinkType::Link => EQUALS,
            LinkType::Unlink => SPACE,
        }
    }

    fn read(b: u8) -> (s: Option<LinkType>) {
        if b == DOT {
            Some(LinkType::LMaybe)
        } else if b == EQUALS {
            Some(LinkType::Link)
        } else if b == SPACE {
            Some(LinkType::Unlink)
        } else {
            None
        }
    }

    fn write(s: LinkType) -> (b: u8) {
        match s {
            LinkType::LMaybe => DOT,
            LinkType::Link => EQUALS,
            LinkType::Unlink => SPACE,
        }
    }

    proof fn lemma_glyph(s: LinkType) {
    }
}

impl Alphabet for VLinkSymbols {
    type State = LinkType;

    open spec fn symbol(b: u8) -> Option<LinkType> {
        if b == DOT {
            Some(LinkType::LMaybe)
        } else if b == DOLLAR {
            Some(LinkType::Link)
        } else if b == SPACE {
            Some(LinkType::Unlink)
        } else {
            None
        }
    }

    open spec fn glyph_of(s: LinkType) -> u8 {
        match s {
            LinkType::LMaybe => DOT,
            LinkType::Link => DOLLAR,
            LinkType::Unlink => SPACE,
        }
    }

    fn read(b: u8) -> (s: Option<LinkType>) {
        if b == DOT {
            Some(LinkType::LMaybe)
        } else if b == DOLLAR {
            Some(LinkType::Link)
        } else if b == SPACE {
            Some(LinkType::Unlink)
        } else {
            None
        }
    }

    fn write(s: LinkType) -> (b: u8) {
        match s {
            LinkType::LMaybe => DOT,
            LinkType::Link => DOLLAR,
            LinkType::Unlink => SPACE,
        }
    }

    proof fn lemma_glyph(s: LinkType) {
    }
}

impl Alphabet for CornerSymbols {
    type State = CornerType;

    open spec fn symbol(b: u8) -> Option<CornerType> {
        if b == SPACE {
            Some(CornerType::CMaybe)
        } else if b == DIGIT_0 {
            Some(CornerType::CZero)
        } else if b == DIGIT_1 {
            Some(CornerType::COne)
        } else if b == DIGIT_2 {
            Some(CornerType::CTwo)
        } else if b == LETTER_E {
            Some(CornerType::Even)
        } else if b == LETTER_L {
            Some(CornerType::Less)
        } else if b == LETTER_G {
            Some(CornerType::Greater)
        } else {
            None
        }
    }

    open spec fn glyph_of(s: CornerType) -> u8 {
        match s {
            CornerType::CMaybe => SPACE,
            CornerType::CZero => DIGIT_0,
            CornerType::COne => DIGIT_1,
            CornerType::CTwo => DIGIT_2,
            CornerType::Even => LETTER_E,
            CornerType::Less => LETTER_L,
            CornerType::Greater => LETTER_G,
        }
    }

    fn read(b: u8) -> (s: Option<CornerType>) {
        if b == SPACE {
            Some(CornerType::CMaybe)
        } else if b == DIGIT_0 {
            Some(CornerType::CZero)
        } else if b == DIGIT_1 {
            Some(CornerType::COne)
        } else if b == DIGIT_2 {
            Some(CornerType::CTwo)
        } else if b == LETTER_E {
            Some(CornerType::Even)
        } else if b == LETTER_L {
            Some(CornerType::Less)
        } else if b == LETTER_G {
            Some(CornerType::Greater)
        } else {
            None
        }
    }

    fn write(s: CornerType) -> (b: u8) {
        match s {
            CornerType::CMaybe => SPACE,
            CornerType::CZero => DIGIT_0,
            CornerType::COne => DIGIT_1,
            CornerType::CTwo => DIGIT_2,
            CornerType::Even => LETTER_E,
            CornerType::Less => LETTER_L,
            CornerType::Greater => LETTER_G,
        }
    }

    proof fn lemma_glyph(s: CornerType) {
    }
}

/// The byte that stands for position (`r`, `c`) of a layer that is drawn on
/// every `row_step`-th line from line `row_first` on, at every `col_step`-th
/// column from column `col_first` on.
pub open spec fn glyph(
    ls: Seq<Seq<u8>>,
    r: int,
    c: int,
    row_step: int,
    row_first: int,
    col_step: int,
    col_first: int,
) -> u8 {
    ls[row_step * r + row_first][col_step * c + col_first]
}

/// Every place of a layer of `rows` by `cols` holds a symbol of the layer.
pub open spec fn legible<A: Alphabet>(
    ls: Seq<Seq<u8>>,
    rows: nat,
    cols: nat,
    row_step: int,
    row_first: int,
    col_step: int,
    col_first: int,
) -> bool {
    forall|r: int, c: int|
        0 <= r < rows && 0 <= c < cols ==> A::symbol(
            #[trigger] glyph(ls, r, c, row_step, row_first, col_step, col_first),
        ) is Some
}

/// The layer of `rows` by `cols` that is drawn on the lines.
pub open spec fn decoded<A: Alphabet>(
    ls: Seq<Seq<u8>>,
    rows: nat,
    cols: nat,
    row_step: int,
    row_first: int,
    col_step: int,
    col_first: int,
) -> Seq<Seq<A::State>> {
    Seq::new(
        rows,
        |r: int|
            Seq::new(
                cols,
                |c: int|
                    A::symbol(glyph(ls, r, c, row_step, row_first, col_step, col_first))->0,
            ),
    )
}

/// Why some lines are not the drawing of a pattern.
#[derive(Clone, Copy, Debug, PartialEq, Eq, Structural)]
pub enum DiagramError {
    /// The number of lines is not one more than a multiple of four.
    Lines,
    /// The length of the first line is not one more than a multiple of
    /// eight, or another line is longer or shorter than the first.
    Width,
    /// A place that is read holds no symbol of its layer.
    Symbol,
}

/// The height of the pattern that is drawn on the lines.
pub open spec fn drawn_height(ls: Seq<Seq<u8>>) -> nat {
    ((ls.len() - 1) / 4) as nat
}

/// The width of the pattern that is drawn on the lines.
pub open spec fn drawn_width(ls: Seq<Seq<u8>>) -> nat {
    ((ls[0].len() - 1) / 8) as nat
}

/// Every place that is read holds a symbol of its layer.
pub open spec fn drawn_symbols(ls: Seq<Seq<u8>>) -> bool {
    let h = drawn_height(ls);
    let w = drawn_width(ls);
    &&& legible::<CellSymbols>(ls, h, w, 4, 2, 8, 4)
    &&& legible::<HLinkSymbols>(ls, h + 1, w, 4, 0, 8, 4)
    &&& legible::<VLinkSymbols>(ls, h, w + 1, 4, 2, 8, 0)
    &&& legible::<CornerSymbols>(ls, 2 * h, 2 * w, 2, 1, 4, 2)
}

/// The pattern that is drawn on the lines.
pub open spec fn drawn_layers(ls: Seq<Seq<u8>>) -> Layers {
    let h = drawn_height(ls);
    let w = drawn_width(ls);
    Layers {
        height: h,
        width: w,
        cells: decoded::<CellSymbols>(ls, h, w, 4, 2, 8, 4),
        hlinks: decoded::<HLinkSymbols>(ls, h + 1, w, 4, 0, 8, 4),
        vlinks: decoded::<VLinkSymbols>(ls, h, w + 1, 4, 2, 8, 0),
        corners: decoded::<CornerSymbols>(ls, 2 * h, 2 * w, 2, 1, 4, 2),
    }
}

/// The pattern that is drawn on the lines, or why they draw none.
pub open spec fn drawn_pattern(ls: Seq<Seq<u8>>) -> Result<Layers, DiagramError> {
    if ls.len() % 4 != 1 {
        Err(DiagramError::Lines)
    } else if ls[0].len() % 8 != 1 || !rect(ls, ls.len(), ls[0].len()) {
        Err(DiagramError::Width)
    } else if !drawn_symbols(ls) {
        Err(DiagramError::Symbol)
    } else {
        Ok(drawn_layers(ls))
    }
}

/// The pattern that a text draws, or why it draws none. White space before
/// and after the drawing does not count.
pub open spec fn diagram(text: Seq<u8>) -> Result<Layers, DiagramError> {
    drawn_pattern(lines(trim(text)))
}

/// Products grow with their second factor.
proof fn lemma_step(step: int, i: int, last: int)
    requires
        0 <= step,
        0 <= i <= last,
    ensures
        0 <= step * i <= step * last,
{
    assert(0 <= step * i <= step * last) by (nonlinear_arith)
        requires
            0 <= step,
            0 <= i <= last,
    ;
}

/// Reads the layer of `rows` by `cols` that is drawn on every `row_step`-th
/// line from line `row_first` on, at every `col_step`-th column from column
/// `col_first` on. There is none where a place holds no symbol of the layer.
pub fn read_layer<A: Alphabet>(
    ls: &Vec<Vec<u8>>,
    width: usize,
    rows: usize,
    cols: usize,
    row_step: usize,
    row_first: usize,
    col_step: usize,
    col_first: usize,
) -> (out: Option<Vec<Vec<A::State>>>)
    requires
        rect(rows_of(*ls), ls.len() as nat, width as nat),
        rows > 0 ==> row_step * (rows - 1) + row_first < ls.len(),
        cols > 0 ==> col_step * (cols - 1) + col_first < width,
    ensures
        out is Some <==> legible::<A>(
            rows_of(*ls),
            rows as nat,
            cols as nat,
            row_step as int,
            row_first as int,
            col_step as int,
            col_first as int,
        ),
        out matches Some(a) ==> rows_of(a) == decoded::<A>(
            rows_of(*ls),
            rows as nat,
            cols as nat,
            row_step as int,
            row_first as int,
            col_step as int,
            col_first as int,
        ),
{
    let ghost src = rows_of(*ls);
    let ghost want = decoded::<A>(
        src,
        rows as nat,
        cols as nat,
        row_step as int,
        row_first as int,
        col_step as int,
        col_first as int,
    );
    let mut a: Vec<Vec<A::State>> = Vec::new();
    let mut r: usize = 0;
    while r < rows
        invariant
            r <= rows,
            src == rows_of(*ls),
            rect(src, ls.len() as nat, width as nat),
            rows > 0 ==> row_step * (rows - 1) + row_first < ls.len(),
            cols > 0 ==> col_step * (cols - 1) + col_first < width,
            want == decoded::<A>(
                src,
                rows as nat,
                cols as nat,
                row_step as int,
                row_first as int,
                col_step as int,
                col_first as int,
            ),
            a@.len() == r,
            forall|i: int| 0 <= i < r ==> (#[trigger] a@[i])@ == want[i],
            forall|i: int, j: int|
                0 <= i < r && 0 <= j < cols ==> A::symbol(
                    #[trigger] glyph(
                        src,
                        i,
                        j,
                        row_step as int,
                        row_first as int,
                        col_step as int,
                        col_first as int,
                    ),
                ) is Some,
        decreases rows - r,
    {
        proof {
            lemma_step(row_step as int, r as int, rows - 1);
        }
        let line = &ls[row_step * r + row_first];
        assert(line@ == src[row_step * r + row_first]);
        let mut out: Vec<A::State> = Vec::new();
        let mut c: usize = 0;
        while c < cols
            invariant
                c <= cols,
                r < rows,
                src == rows_of(*ls),
                line@ == src[row_step * r + row_first],
                line@.len() == width,
                cols > 0 ==> col_step * (cols - 1) + col_first < width,
                want == decoded::<A>(
                    src,
                    rows as nat,
                    cols as nat,
                    row_step as int,
                    row_first as int,
                    col_step as int,
                    col_first as int,
                ),
                out@.len() == c,
                forall|j: int| 0 <= j < c ==> out@[j] == want[r as int][j],
                forall|j: int|
                    0 <= j < c ==> A::symbol(
                        #[trigger] glyph(
                            src,
                            r as int,
                            j,
                            row_step as int,
                            row_first as int,
                            col_step as int,
                            col_first as int,
                        ),
                    ) is Some,
            decreases cols - c,
        {
            proof {
                lemma_step(col_step as int, c as int, cols - 1);
            }
            let b = line[col_step * c + col_first];
            assert(b == glyph(
                src,
                r as int,
                c as int,
                row_step as int,
                row_first as int,
                col_step as int,
                col_first as int,
            ));
            match A::read(b) {
                Some(state) => {
                    out.push(state);
                },
                None => {
                    return None;
                },
            }
            c += 1;
        }
        assert(out@ =~= want[r as int]);
        a.push(out);
        r += 1;
    }
    assert(rows_of(a) =~= want);
    Some(a)
}

} // verus!
