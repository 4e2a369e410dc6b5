//! Patterns: a rectangle of cells with the links and corners that belong to it.

use crate::diagram::{
    diagram, read_layer, CellSymbols, CornerSymbols, DiagramError, HLinkSymbols, VLinkSymbols,
};
use crate::element::{CellType, CornerType, LinkType};
use crate::layer;
use crate::layer::{rect, rows_of};
use crate::text::{lines, split_lines, trim, trimmed};
use vstd::prelude::*;
use vstd::string::StringSliceAdditionalSpecFns;

verus! {

/// The four layers of a grid or of a pattern, as mathematical values.
///
/// A rectangle of `height` by `width` cells has `height + 1` rows of
/// horizontal links, `width + 1` columns of vertical links, and four corner
/// states around each cell.
pub struct Layers {
    pub height: nat,
    pub width: nat,
    pub cells: Seq<Seq<CellType>>,
    pub hlinks: Seq<Seq<LinkType>>,
    pub vlinks: Seq<Seq<LinkType>>,
    pub corners: Seq<Seq<CornerType>>,
}

impl Layers {
    /// Each layer has the size that `height` and `width` ask for.
    pub open spec fn wf(self) -> bool {
        &&& rect(self.cells, self.height, self.width)
        &&& rect(self.hlinks, self.height + 1, self.width)
        &&& rect(self.vlinks, self.height, self.width + 1)
        &&& rect(self.corners, 2 * self.height, 2 * self.width)
    }

    /// The layers after a quarter turn. Horizontal links become vertical
    /// ones, and vertical links horizontal ones.
    pub open spec fn rotated_90(self) -> Layers {
        Layers {
            height: self.width,
            width: self.height,
            cells: layer::turned(self.cells, self.height, self.width),
            hlinks: layer::turned(self.vlinks, self.height, self.width + 1),
            vlinks: layer::turned(self.hlinks, self.height + 1, self.width),
            corners: layer::turned(self.corners, 2 * self.height, 2 * self.width),
        }
    }

    /// The layers mirrored left to right.
    pub open spec fn reversed_lr(self) -> Layers {
        Layers {
            height: self.height,
            width: self.width,
            cells: layer::mirrored(self.cells),
            hlinks: layer::mirrored(self.hlinks),
            vlinks: layer::mirrored(self.vlinks),
            corners: layer::mirrored(self.corners),
        }
    }

    /// The layers mirrored top to bottom.
    pub open spec fn reversed_ud(self) -> Layers {
        Layers {
            height: self.height,
            width: self.width,
            cells: layer::inverted(self.cells),
            hlinks: layer::inverted(self.hlinks),
            vlinks: layer::inverted(self.vlinks),
            corners: layer::inverted(self.corners),
        }
    }

    /// The layers after a half turn.
    pub open spec fn rotated_180(self) -> Layers {
        Layers {
            height: self.height,
            width: self.width,
            cells: layer::half_turned(self.cells),
            hlinks: layer::half_turned(self.hlinks),
            vlinks: layer::half_turned(self.vlinks),
            corners: layer::half_turned(self.corners),
        }
    }

    /// The pattern `p`, with its first cell on cell (`row`, `col`), lies
    /// inside these layers.
    pub open spec fn holds(self, p: Layers, row: int, col: int) -> bool {
        &&& 0 <= row < self.height
        &&& 0 <= col < self.width
        &&& row + p.height <= self.height
        &&& col + p.width <= self.width
    }

    /// Under the pattern `p`, laid with its first cell on cell (`row`, `col`),
    /// every state of every layer is at least as specific as the pattern's.
    pub open spec fn satisfies(self, p: Layers, row: int, col: int) -> bool {
        &&& layer::satisfies(self.cells, p.cells, row, col)
        &&& layer::satisfies(self.hlinks, p.hlinks, row, col)
        &&& layer::satisfies(self.vlinks, p.vlinks, row, col)
        &&& layer::satisfies(self.corners, p.corners, 2 * row, 2 * col)
    }

    /// Under the pattern `p`, every state of every layer has a meet with the
    /// pattern's.
    pub open spec fn consistent(self, p: Layers, row: int, col: int) -> bool {
        &&& layer::consistent(self.cells, p.cells, row, col)
        &&& layer::consistent(self.hlinks, p.hlinks, row, col)
        &&& layer::consistent(self.vlinks, p.vlinks, row, col)
        &&& layer::consistent(self.corners, p.corners, 2 * row, 2 * col)
    }

    /// These layers with every state under the pattern `p` replaced by its
    /// meet with the pattern's.
    pub open spec fn narrowed(self, p: Layers, row: int, col: int) -> Layers {
        Layers {
            height: self.height,
            width: self.width,
            cells: layer::narrowed(self.cells, p.cells, row, col),
            hlinks: layer::narrowed(self.hlinks, p.hlinks, row, col),
            vlinks: layer::narrowed(self.vlinks, p.vlinks, row, col),
            corners: layer::narrowed(self.corners, p.corners, 2 * row, 2 * col),
        }
    }

    /// These layers have the size of `other`, and each of their states is at
    /// least as specific as the state of `other` at the same place.
    pub open spec fn refines(self, other: Layers) -> bool {
        &&& self.height == other.height
        &&& self.width == other.width
        &&& layer::refines(self.cells, other.cells)
        &&& layer::refines(self.hlinks, other.hlinks)
        &&& layer::refines(self.vlinks, other.vlinks)
        &&& layer::refines(self.corners, other.corners)
    }
}

/// The images of well-formed layers under the symmetries are well formed.
pub proof fn lemma_images_wf(x: Layers)
    requires
        x.wf(),
    ensures
        x.rotated_90().wf(),
        x.rotated_180().wf(),
        x.reversed_ud().wf(),
        x.reversed_lr().wf(),
{
    layer::lemma_turned_rect(x.cells, x.height, x.width);
    layer::lemma_turned_rect(x.hlinks, x.height + 1, x.width);
    layer::lemma_turned_rect(x.vlinks, x.height, x.width + 1);
    layer::lemma_turned_rect(x.corners, 2 * x.height, 2 * x.width);
}

/// Two quarter turns are a half turn.
pub proof fn lemma_quarter_twice(x: Layers)
    requires
        x.wf(),
    ensures
        x.rotated_90().rotated_90() == x.rotated_180(),
{
    layer::lemma_turned_twice(x.cells, x.height, x.width);
    layer::lemma_turned_twice(x.hlinks, x.height + 1, x.width);
    layer::lemma_turned_twice(x.vlinks, x.height, x.width + 1);
    layer::lemma_turned_twice(x.corners, 2 * x.height, 2 * x.width);
}

/// A half turn and each of the two mirrorings undo themselves.
pub proof fn lemma_involutions(x: Layers)
    requires
        x.wf(),
    ensures
        x.rotated_180().rotated_180() == x,
        x.reversed_ud().reversed_ud() == x,
        x.reversed_lr().reversed_lr() == x,
{
    layer::lemma_flipped_twice(x.cells, x.height, x.width);
    layer::lemma_flipped_twice(x.hlinks, x.height + 1, x.width);
    layer::lemma_flipped_twice(x.vlinks, x.height, x.width + 1);
    layer::lemma_flipped_twice(x.corners, 2 * x.height, 2 * x.width);
}

/// A quarter turn, then a mirroring top to bottom, then a quarter turn again
/// are together a mirroring top to bottom.
pub proof fn lemma_turn_flip_turn(x: Layers)
    requires
        x.wf(),
    ensures
        x.rotated_90().reversed_ud().rotated_90() == x.reversed_ud(),
{
    layer::lemma_turn_flip_turn(x.cells, x.height, x.width);
    layer::lemma_turn_flip_turn(x.hlinks, x.height + 1, x.width);
    layer::lemma_turn_flip_turn(x.vlinks, x.height, x.width + 1);
    layer::lemma_turn_flip_turn(x.corners, 2 * x.height, 2 * x.width);
}

/// One side of a rule: a pattern of `height` by `width` cells.
#[derive(Debug)]
pub struct HalfRule {
    height: usize,
    width: usize,
    cells: Vec<Vec<CellType>>,
    hlinks: Vec<Vec<LinkType>>,
    vlinks: Vec<Vec<LinkType>>,
    corners: Vec<Vec<CornerType>>,
}

impl View for HalfRule {
    type V = Layers;

    closed spec fn view(&self) -> Layers {
        Layers {
            height: self.height as nat,
            width: self.width as nat,
            cells: rows_of(self.cells),
            hlinks: rows_of(self.hlinks),
            vlinks: rows_of(self.vlinks),
            corners: rows_of(self.corners),
        }
    }
}

impl HalfRule {
    /// What every pattern keeps: its layers have the sizes that its height
    /// and width ask for, and every position can be indexed on this machine.
    #[verifier::type_invariant]
    pub open spec fn valid(self) -> bool {
        &&& self@.wf()
        &&& 2 * self@.height + 2 <= usize::MAX
        &&& 2 * self@.width + 2 <= usize::MAX
    }

    /// Reads the pattern that `text` draws, or finds why it draws none.
    pub fn parse(text: &[u8]) -> (r: Result<HalfRule, DiagramError>)
        ensures
            match r {
                Ok(pattern) => diagram(text@) == Ok::<Layers, DiagramError>(pattern@),
                Err(e) => diagram(text@) == Err::<Layers, DiagramError>(e),
            },
    {
        let inked = trimmed(text);
        let ls = split_lines(inked.as_slice());
        let ghost src = rows_of(ls);
        let n = ls.len();
        if n % 4 != 1 {
            return Err(DiagramError::Lines);
        }
        let len = ls[0].len();
        assert(len == src[0].len());
        if len % 8 != 1 {
            return Err(DiagramError::Width);
        }
        let mut i: usize = 1;
        while i < n
            invariant
                1 <= i <= n,
                n == ls.len(),
                src == rows_of(ls),
                src == lines(trim(text@)),
                n % 4 == 1,
                len == src[0].len(),
                len % 8 == 1,
                forall|k: int| 0 <= k < i ==> (#[trigger] src[k]).len() == len,
            decreases n - i,
        {
            if ls[i].len() != len {
                assert(src[i as int].len() != len);
                return Err(DiagramError::Width);
            }
            i += 1;
        }
        let height = (n - 1) / 4;
        let width = (len - 1) / 8;
        let cells = read_layer::<CellSymbols>(&ls, len, height, width, 4, 2, 8, 4);
        let hlinks = read_layer::<HLinkSymbols>(&ls, len, height + 1, width, 4, 0, 8, 4);
        let vlinks = read_layer::<VLinkSymbols>(&ls, len, height, width + 1, 4, 2, 8, 0);
        let corners = read_layer::<CornerSymbols>(&ls, len, 2 * height, 2 * width, 2, 1, 4, 2);
        match (cells, hlinks, vlinks, corners) {
            (Some(cells), Some(hlinks), Some(vlinks), Some(corners)) => Ok(
                HalfRule { height, width, cells, hlinks, vlinks, corners },
            ),
            _ => Err(DiagramError::Symbol),
        }
    }

    /// The pattern that `text` draws.
    pub fn new(text: &str) -> (pattern: HalfRule)
        requires
            diagram(text.spec_bytes()) is Ok,
        ensures
            diagram(text.spec_bytes()) == Ok::<Layers, DiagramError>(pattern@),
    {
        match HalfRule::parse(text.as_bytes()) {
            Ok(pattern) => pattern,
            Err(_) => vstd::pervasive::unreached(),
        }
    }

    /// The number of rows of cells.
    pub fn height(&self) -> (h: usize)
        ensures
            h == self@.height,
            2 * h + 2 <= usize::MAX,
            self@.wf(),
    {
        proof {
            use_type_invariant(self);
        }
        self.height
    }

    /// The number of columns of cells.
    pub fn width(&self) -> (w: usize)
        ensures
            w == self@.width,
            2 * w + 2 <= usize::MAX,
            self@.wf(),
    {
        proof {
            use_type_invariant(self);
        }
        self.width
    }

    /// The cell layer, row by row.
    pub fn cells(&self) -> (a: &Vec<Vec<CellType>>)
        ensures
            rows_of(*a) == self@.cells,
    {
        &self.cells
    }

    /// The layer of horizontal links, row by row.
    pub fn hlinks(&self) -> (a: &Vec<Vec<LinkType>>)
        ensures
            rows_of(*a) == self@.hlinks,
    {
        &self.hlinks
    }

    /// The layer of vertical links, row by row.
    pub fn vlinks(&self) -> (a: &Vec<Vec<LinkType>>)
        ensures
            rows_of(*a) == self@.vlinks,
    {
        &self.vlinks
    }

    /// The corner layer, row by row.
    pub fn corners(&self) -> (a: &Vec<Vec<CornerType>>)
        ensures
            rows_of(*a) == self@.corners,
    {
        &self.corners
    }

    /// The state of the cell in row `row` and column `col`.
    pub fn cell(&self, row: usize, col: usize) -> (s: CellType)
        requires
            row < self@.height,
            col < self@.width,
        ensures
            s == self@.cells[row as int][col as int],
    {
        proof {
            use_type_invariant(self);
            assert(rows_of(self.cells)[row as int].len() == self.width);
        }
        self.cells[row][col]
    }

    /// The state of the horizontal link above the cell in row `row` and
    /// column `col`; row `height` holds the links below the last row of cells.
    pub fn hlink(&self, row: usize, col: usize) -> (s: LinkType)
        requires
            row <= self@.height,
            col < self@.width,
        ensures
            s == self@.hlinks[row as int][col as int],
    {
        proof {
            use_type_invariant(self);
            assert(rows_of(self.hlinks)[row as int].len() == self.width);
        }
        self.hlinks[row][col]
    }

    /// The state of the vertical link to the left of the cell in row `row`
    /// and column `col`; column `width` holds the links to the right of the
    /// last column of cells.
    pub fn vlink(&self, row: usize, col: usize) -> (s: LinkType)
        requires
            row < self@.height,
            col <= self@.width,
        ensures
            s == self@.vlinks[row as int][col as int],
    {
        proof {
            use_type_invariant(self);
            assert(rows_of(self.vlinks)[row as int].len() == self.width + 1);
        }
        self.vlinks[row][col]
    }

    /// The state of the corner quadrant in row `row` and column `col` of the
    /// corner layer, which has two rows and two columns for each cell.
    pub fn corner(&self, row: usize, col: usize) -> (s: CornerType)
        requires
            row < 2 * self@.height,
            col < 2 * self@.width,
        ensures
            s == self@.corners[row as int][col as int],
    {
        proof {
            use_type_invariant(self);
            assert(rows_of(self.corners)[row as int].len() == 2 * self.width);
        }
        self.corners[row][col]
    }

    /// The pattern after a quarter turn.
    pub fn rotated_90(&self) -> (r: HalfRule)
        ensures
            r@ == self@.rotated_90(),
    {
        proof {
            use_type_invariant(self);
        }
        let height = self.width;
        let width = self.height;
        let cells = layer::rotated(&self.cells, self.height, self.width);
        let hlinks = layer::rotated(&self.vlinks, self.height, self.width + 1);
        let vlinks = layer::rotated(&self.hlinks, self.height + 1, self.width);
        let corners = layer::rotated(&self.corners, 2 * self.height, 2 * self.width);
        HalfRule { height, width, cells, hlinks, vlinks, corners }
    }

    /// The pattern mirrored left to right.
    pub fn reversed_lr(&self) -> (r: HalfRule)
        ensures
            r@ == self@.reversed_lr(),
    {
        proof {
            use_type_invariant(self);
        }
        let cells = layer::reversed_lr(&self.cells);
        let hlinks = layer::reversed_lr(&self.hlinks);
        let vlinks = layer::reversed_lr(&self.vlinks);
        let corners = layer::reversed_lr(&self.corners);
        HalfRule { height: self.height, width: self.width, cells, hlinks, vlinks, corners }
    }

    /// The pattern mirrored top to bottom.
    pub fn reversed_ud(&self) -> (r: HalfRule)
        ensures
            r@ == self@.reversed_ud(),
    {
        proof {
            use_type_invariant(self);
        }
        let cells = layer::reversed_ud(&self.cells);
        let hlinks = layer::reversed_ud(&self.hlinks);
        let vlinks = layer::reversed_ud(&self.vlinks);
        let corners = layer::reversed_ud(&self.corners);
        HalfRule { height: self.height, width: self.width, cells, hlinks, vlinks, corners }
    }

    /// The pattern after a half turn.
    pub fn rotated_180(&self) -> (r: HalfRule)
        ensures
            r@ == self@.rotated_180(),
    {
        proof {
            use_type_invariant(self);
        }
        let cells = layer::rotated_180(&self.cells);
        let hlinks = layer::rotated_180(&self.hlinks);
        let vlinks = layer::rotated_180(&self.vlinks);
        let corners = layer::rotated_180(&self.corners);
        HalfRule { height: self.height, width: self.width, cells, hlinks, vlinks, corners }
    }

    /// Whether two patterns have the same size and the same states.
    pub fn same(&self, other: &HalfRule) -> (e: bool)
        ensures
            e == (self@ == other@),
    {
        self.height == other.height && self.width == other.width && layer::equal_layers(
            &self.cells,
            &other.cells,
        ) && layer::equal_layers(&self.hlinks, &other.hlinks) && layer::equal_layers(
            &self.vlinks,
            &other.vlinks,
        ) && layer::equal_layers(&self.corners, &other.corners)
    }
}

impl Clone for HalfRule {
    fn clone(&self) -> (copy: HalfRule)
        ensures
            copy@ == self@,
    {
        proof {
            use_type_invariant(self);
        }
        HalfRule {
            height: self.height,
            width: self.width,
            cells: layer::duplicate(&self.cells),
            hlinks: layer::duplicate(&self.hlinks),
            vlinks: layer::duplicate(&self.vlinks),
            corners: layer::duplicate(&self.corners),
        }
    }
}

impl PartialEq for HalfRule {
    fn eq(&self, other: &HalfRule) -> (e: bool) {
        self.same(other)
    }
}

impl vstd::std_specs::cmp::PartialEqSpecImpl for HalfRule {
    open spec fn obeys_eq_spec() -> bool {
        true
    }

    open spec fn eq_spec(&self, other: &HalfRule) -> bool {
        self@ == other@
    }
}

impl Eq for HalfRule {

}

} // verus!
