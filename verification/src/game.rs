//! The grid: its four layers inside a border ring, and the step that applies
//! one rule at one place.

use crate::ascii::{DIGIT_0, DIGIT_1, DIGIT_2, DIGIT_3, SMALL_A, SMALL_Z};
use crate::element::{meet, meets, CellType, CornerType, LinkType};
use crate::layer;
use crate::layer::{on_ring, rows_of};
use crate::pattern::Layers;
use crate::rule::{Rule, RuleView};
use vstd::prelude::*;
use vstd::string::is_ascii_spec_bytes;

verus! {

/// Whether `c` may stand in a task: a label from 0 to 3, or a lower-case
/// letter.
pub open spec fn task_symbol(c: char) -> bool {
    ('0' <= c <= '3') || ('a' <= c <= 'z')
}

/// The cells that one character of a task stands for. A digit is one cell
/// with that label. A letter is a run of cells without a label: one for `a`,
/// two for `b`, and so on.
pub open spec fn task_run(c: char) -> Seq<CellType> {
    if c == '0' {
        seq![CellType::Zero]
    } else if c == '1' {
        seq![CellType::One]
    } else if c == '2' {
        seq![CellType::Two]
    } else if c == '3' {
        seq![CellType::Three]
    } else if 'a' <= c <= 'z' {
        Seq::new((c as u32 - 'a' as u32 + 1) as nat, |i: int| CellType::Empty)
    } else {
        Seq::empty()
    }
}

/// The cells that a task stands for, in the order of the scan: row by row,
/// and from left to right in each row.
pub open spec fn task_cells(task: Seq<char>) -> Seq<CellType>
    decreases task.len(),
{
    if task.len() == 0 {
        Seq::empty()
    } else {
        task_cells(task.drop_last()) + task_run(task.last())
    }
}

/// Every character of the task may stand in a task.
pub open spec fn task_symbols(task: Seq<char>) -> bool {
    forall|i: int| 0 <= i < task.len() ==> task_symbol(#[trigger] task[i])
}

/// The largest side, border included, that a grid may have on this machine.
pub open spec fn max_side() -> nat {
    ((usize::MAX - 2) / 2) as nat
}

/// The task describes a grid of `width` by `height` cells: it holds task
/// symbols only, and they stand for as many cells as the grid has.
pub open spec fn task_fits(width: nat, height: nat, task: Seq<char>) -> bool {
    &&& task_symbols(task)
    &&& task_cells(task).len() == width * height
}

/// The grid that is built for a task: the task's cells inside a ring of
/// cells without a label, every link on the outer ring unlinked, and every
/// corner on the outer ring of degree zero.
pub open spec fn initial(width: nat, height: nat, task: Seq<char>) -> Layers {
    Layers {
        height: height + 2,
        width: width + 2,
        cells: layer::padded(task_cells(task), height, width, CellType::Empty),
        hlinks: layer::frame(height + 3, width + 2, LinkType::Unlink, LinkType::LMaybe),
        vlinks: layer::frame(height + 2, width + 3, LinkType::Unlink, LinkType::LMaybe),
        corners: layer::frame(
            2 * (height + 2),
            2 * (width + 2),
            CornerType::CZero,
            CornerType::CMaybe,
        ),
    }
}

impl Layers {
    /// Every link on the outer ring is unlinked, and every corner on the
    /// outer ring has degree zero.
    pub open spec fn closed_ring(self) -> bool {
        &&& forall|r: int, c: int|
            0 <= r <= self.height && 0 <= c < self.width && on_ring(
                r,
                c,
                self.height + 1,
                self.width,
            ) ==> #[trigger] self.hlinks[r][c] == LinkType::Unlink
        &&& forall|r: int, c: int|
            0 <= r < self.height && 0 <= c <= self.width && on_ring(
                r,
                c,
                self.height,
                self.width + 1,
            ) ==> #[trigger] self.vlinks[r][c] == LinkType::Unlink
        &&& forall|r: int, c: int|
            0 <= r < 2 * self.height && 0 <= c < 2 * self.width && on_ring(
                r,
                c,
                2 * self.height,
                2 * self.width,
            ) ==> #[trigger] self.corners[r][c] == CornerType::CZero
    }

    /// These layers are a grid: each layer has the right size, the outer
    /// ring is closed, and every position can be indexed on this machine.
    pub open spec fn is_grid(self) -> bool {
        &&& self.wf()
        &&& self.closed_ring()
        &&& 7 <= self.height <= max_side()
        &&& 7 <= self.width <= max_side()
    }

    /// No cell on the outer ring has a label.
    pub open spec fn blank_ring(self) -> bool {
        forall|r: int, c: int|
            0 <= r < self.height && 0 <= c < self.width && on_ring(r, c, self.height, self.width)
                ==> #[trigger] self.cells[r][c] == CellType::Empty
    }
}

/// Why no grid can be built from a width, a height and a task.
#[derive(Clone, Copy, Debug, PartialEq, Eq, Structural)]
pub enum TaskError {
    /// The width or the height is below 5.
    TooSmall,
    /// The width or the height is beyond what this machine can index.
    TooLarge,
    /// The task holds a character that is neither a label nor a lower-case
    /// letter.
    Symbol,
    /// The task stands for more or fewer cells than the grid has.
    Length,
}

/// What a width, a height and a task give: the error that they meet first,
/// or none.
pub open spec fn task_error(width: nat, height: nat, task: Seq<char>) -> Option<TaskError> {
    if width < 5 || height < 5 {
        Some(TaskError::TooSmall)
    } else if width + 2 > max_side() || height + 2 > max_side() {
        Some(TaskError::TooLarge)
    } else if !task_symbols(task) {
        Some(TaskError::Symbol)
    } else if task_cells(task).len() != width * height {
        Some(TaskError::Length)
    } else {
        None
    }
}

/// The cells of a longer task start with the cells of the shorter one.
proof fn lemma_task_cells_step(task: Seq<char>, n: int)
    requires
        0 <= n < task.len(),
    ensures
        task_cells(task.take(n + 1)) == task_cells(task.take(n)) + task_run(task[n]),
{
    assert(task.take(n + 1).drop_last() =~= task.take(n));
}

/// Reads a task into its cells, or finds a character that is no task symbol.
fn decode_task(task: &str) -> (r: Option<Vec<CellType>>)
    ensures
        r is Some <==> task_symbols(task@),
        r matches Some(cells) ==> cells@ == task_cells(task@),
{
    if !task.is_ascii() {
        proof {
            let i = choose|i: int|
                0 <= i < task@.len() && !('\0' <= #[trigger] task@[i] <= '\u{7f}');
            assert(!task_symbol(task@[i]));
        }
        return None;
    }
    let bytes = task.as_bytes();
    proof {
        is_ascii_spec_bytes(task);
    }
    assert(bytes@.len() == task@.len());
    let mut cells: Vec<CellType> = Vec::new();
    let mut n: usize = 0;
    while n < bytes.len()
        invariant
            n <= bytes.len(),
            bytes@.len() == task@.len(),
            vstd::string::is_ascii(task),
            forall|i: int| 0 <= i < task@.len() ==> bytes@[i] == #[trigger] task@[i] as u8,
            forall|i: int| 0 <= i < n ==> task_symbol(#[trigger] task@[i]),
            cells@ == task_cells(task@.take(n as int)),
        decreases bytes.len() - n,
    {
        let b: u8 = bytes[n];
        let ghost c = task@[n as int];
        assert(b == c as u8);
        assert('\0' <= c <= '\u{7f}');
        proof {
            lemma_task_cells_step(task@, n as int);
        }
        if b == DIGIT_0 {
            cells.push(CellType::Zero);
            assert(c == '0');
        } else if b == DIGIT_1 {
            cells.push(CellType::One);
            assert(c == '1');
        } else if b == DIGIT_2 {
            cells.push(CellType::Two);
            assert(c == '2');
        } else if b == DIGIT_3 {
            cells.push(CellType::Three);
            assert(c == '3');
        } else if SMALL_A <= b && b <= SMALL_Z {
            assert('a' <= c <= 'z');
            let run: u8 = b - SMALL_A + 1;
            let ghost before = cells@;
            let mut k: u8 = 0;
            while k < run
                invariant
                    k <= run,
                    cells@ == before + Seq::new(k as nat, |i: int| CellType::Empty),
                decreases run - k,
            {
                cells.push(CellType::Empty);
                k += 1;
                assert(cells@ =~= before + Seq::new(k as nat, |i: int| CellType::Empty));
            }
            assert(run as nat == (c as u32 - 'a' as u32 + 1) as nat);
        } else {
            assert(!task_symbol(c));
            return None;
        }
        assert(cells@ =~= task_cells(task@.take(n as int)) + task_run(c));
        n += 1;
    }
    assert(task@.take(n as int) =~= task@);
    Some(cells)
}

/// A grid of cells, links and corners inside a border ring.
///
/// The heights and widths of a grid count the border ring: a grid built for 5
/// by 5 cells has height 7 and width 7.
#[derive(Debug)]
pub struct Game {
    height: usize,
    width: usize,
    cells: Vec<Vec<CellType>>,
    hlinks: Vec<Vec<LinkType>>,
    vlinks: Vec<Vec<LinkType>>,
    corners: Vec<Vec<CornerType>>,
}

impl View for Game {
    type V = Layers;

    closed spec fn view(&self) -> Layers {
        Layers {
            height: self.height as nat,
            width: self.width as nat,
            cells: rows_of(self.cells),
            hlinks: rows_of(self.hlinks),
            vlinks: rows_of(self.vlinks),
            corners: rows_of(self.corners),
        }
    }
}

impl Game {
    /// The grid for `width` by `height` cells with the labels that `task`
    /// gives, or the reason why there is none.
    pub fn try_new(width: usize, height: usize, task: &str) -> (r: Result<Game, TaskError>)
        ensures
            match r {
                Ok(game) => {
                    &&& task_error(width as nat, height as nat, task@) is None
                    &&& game@ == initial(width as nat, height as nat, task@)
                    &&& game@.is_grid()
                    &&& game@.blank_ring()
                },
                Err(e) => task_error(width as nat, height as nat, task@) == Some(e),
            },
    {
        if width < 5 || height < 5 {
            return Err(TaskError::TooSmall);
        }
        let limit: usize = (usize::MAX - 2) / 2;
        if width > limit - 2 || height > limit - 2 {
            return Err(TaskError::TooLarge);
        }
        let flat = match decode_task(task) {
            Some(flat) => flat,
            None => {
                return Err(TaskError::Symbol);
            },
        };
        assert(width * height <= 0xffff_ffff_ffff_ffff * 0xffff_ffff_ffff_ffff
            && width * height == height * width) by (nonlinear_arith)
            requires
                0 <= width <= 0xffff_ffff_ffff_ffff,
                0 <= height <= 0xffff_ffff_ffff_ffff,
        ;
        let area: u128 = (width as u128) * (height as u128);
        if flat.len() as u128 != area {
            return Err(TaskError::Length);
        }
        let cells = layer::pad(&flat, height, width, CellType::Empty);
        let hlinks = layer::framed(height + 3, width + 2, LinkType::Unlink, LinkType::LMaybe);
        let vlinks = layer::framed(height + 2, width + 3, LinkType::Unlink, LinkType::LMaybe);
        let corners = layer::framed(
            2 * (height + 2),
            2 * (width + 2),
            CornerType::CZero,
            CornerType::CMaybe,
        );
        let game = Game { height: height + 2, width: width + 2, cells, hlinks, vlinks, corners };
        assert(game@ == initial(width as nat, height as nat, task@));
        Ok(game)
    }

    /// The grid for `width` by `height` cells with the labels that `task`
    /// gives.
    pub fn new(width: usize, height: usize, task: &str) -> (game: Game)
        requires
            width >= 5,
            height >= 5,
            width + 2 <= max_side(),
            height + 2 <= max_side(),
            task_fits(width as nat, height as nat, task@),
        ensures
            game@ == initial(width as nat, height as nat, task@),
            game@.is_grid(),
            game@.blank_ring(),
    {
        match Game::try_new(width, height, task) {
            Ok(game) => game,
            Err(_) => vstd::pervasive::unreached(),
        }
    }

    /// The number of rows of cells, the two border rows included.
    pub fn height(&self) -> (h: usize)
        ensures
            h == self@.height,
    {
        self.height
    }

    /// The number of columns of cells, the two border columns included.
    pub fn width(&self) -> (w: usize)
        ensures
            w == self@.width,
    {
        self.width
    }

    /// The cell layer, row by row.
    pub fn cells(&self) -> (a: &Vec<Vec<CellType>>)
        ensures
            rows_of(*a) == self@.cells,
    {
        &self.cells
    }

    /// The layer of horizontal links, row by row.
    pub fn hlinks(&self) -> (a: &Vec<Vec<LinkType>>)
        ensures
            rows_of(*a) == self@.hlinks,
    {
        &self.hlinks
    }

    /// The layer of vertical links, row by row.
    pub fn vlinks(&self) -> (a: &Vec<Vec<LinkType>>)
        ensures
            rows_of(*a) == self@.vlinks,
    {
        &self.vlinks
    }

    /// The corner layer, row by row.
    pub fn corners(&self) -> (a: &Vec<Vec<CornerType>>)
        ensures
            rows_of(*a) == self@.corners,
    {
        &self.corners
    }

    /// The state of the cell in row `row` and column `col`.
    pub fn cell(&self, row: usize, col: usize) -> (s: CellType)
        requires
            self@.is_grid(),
            row < self@.height,
            col < self@.width,
        ensures
            s == self@.cells[row as int][col as int],
    {
        proof {
            assert(rows_of(self.cells)[row as int].len() == self.width);
        }
        self.cells[row][col]
    }

    /// The state of the horizontal link above the cell in row `row` and
    /// column `col`; row `height` holds the links below the last row of cells.
    pub fn hlink(&self, row: usize, col: usize) -> (s: LinkType)
        requires
            self@.is_grid(),
            row <= self@.height,
            col < self@.width,
        ensures
            s == self@.hlinks[row as int][col as int],
    {
        proof {
            assert(rows_of(self.hlinks)[row as int].len() == self.width);
        }
        self.hlinks[row][col]
    }

    /// The state of the vertical link to the left of the cell in row `row`
    /// and column `col`; column `width` holds the links to the right of the
    /// last column of cells.
    pub fn vlink(&self, row: usize, col: usize) -> (s: LinkType)
        requires
            self@.is_grid(),
            row < self@.height,
            col <= self@.width,
        ensures
            s == self@.vlinks[row as int][col as int],
    {
        proof {
            assert(rows_of(self.vlinks)[row as int].len() == self.width + 1);
        }
        self.vlinks[row][col]
    }

    /// The state of the corner quadrant in row `row` and column `col` of the
    /// corner layer, which has two rows and two columns for each cell.
    pub fn corner(&self, row: usize, col: usize) -> (s: CornerType)
        requires
            self@.is_grid(),
            row < 2 * self@.height,
            col < 2 * self@.width,
        ensures
            s == self@.corners[row as int][col as int],
    {
        proof {
            assert(rows_of(self.corners)[row as int].len() == 2 * self.width);
        }
        self.corners[row][col]
    }

    /// Whether `rule` applies at (`row`, `col`): whether its input pattern,
    /// with its first cell on that cell, lies inside the grid and is
    /// satisfied by it.
    pub fn matches_rule(&self, rule: &Rule, row: usize, col: usize) -> (ok: bool)
        requires
            self@.is_grid(),
        ensures
            ok == rule@.applies(self@, row as int, col as int),
    {
        let pattern = rule.rule_in();
        let h = pattern.height();
        let w = pattern.width();
        if row >= self.height || col >= self.width || h > self.height - row || w > self.width
            - col {
            return false;
        }
        layer::test_layer(&self.cells, pattern.cells(), row, col, h, w) && layer::test_layer(
            &self.hlinks,
            pattern.hlinks(),
            row,
            col,
            h + 1,
            w,
        ) && layer::test_layer(&self.vlinks, pattern.vlinks(), row, col, h, w + 1)
            && layer::test_layer(&self.corners, pattern.corners(), 2 * row, 2 * col, 2 * h, 2 * w)
    }

    /// Whether the output pattern of `rule`, laid on (`row`, `col`), lies
    /// inside the grid and has a meet with it everywhere. Where the rule
    /// applies and this does not hold, the rule and the grid contradict each
    /// other.
    pub fn agrees_with(&self, rule: &Rule, row: usize, col: usize) -> (ok: bool)
        requires
            self@.is_grid(),
        ensures
            ok == (self@.holds(rule@.output, row as int, col as int) && self@.consistent(
                rule@.output,
                row as int,
                col as int,
            )),
    {
        let pattern = rule.rule_out();
        let h = pattern.height();
        let w = pattern.width();
        if row >= self.height || col >= self.width || h > self.height - row || w > self.width
            - col {
            return false;
        }
        layer::check_layer(&self.cells, pattern.cells(), row, col, h, w) && layer::check_layer(
            &self.hlinks,
            pattern.hlinks(),
            row,
            col,
            h + 1,
            w,
        ) && layer::check_layer(&self.vlinks, pattern.vlinks(), row, col, h, w + 1)
            && layer::check_layer(&self.corners, pattern.corners(), 2 * row, 2 * col, 2 * h, 2 * w)
    }

    /// Applies `rule` with the first cell of its patterns on (`row`, `col`).
    ///
    /// Where the rule does not apply there, the grid stays as it is and the
    /// result is `None`. Where it applies, every state under the output
    /// pattern is replaced by its meet with the pattern's state, and the
    /// result says whether any state changed. After that the rule still
    /// applies there, and applying it again changes nothing. No state of the
    /// grid gets less specific. A rule whose output contradicts the grid
    /// where its input is satisfied is left out.
    pub fn try_apply_rule(&mut self, rule: &Rule, row: usize, col: usize) -> (res: Option<bool>)
        requires
            old(self)@.is_grid(),
            !rule@.contradicts(old(self)@, row as int, col as int),
        ensures
            (final(self)@, res) == rule@.outcome(old(self)@, row as int, col as int),
            res is Some ==> rule@.spent(final(self)@, row as int, col as int),
            final(self)@.refines(old(self)@),
            final(self)@.is_grid(),
    {
        proof {
            lemma_refines_self(self@);
        }
        if !self.matches_rule(rule, row, col) {
            return None;
        }
        let pattern = rule.rule_out();
        proof {
            lemma_reapply(rule@, self@, row as int, col as int);
        }
        let h = pattern.height();
        let w = pattern.width();
        let ghost before = self@;
        let ghost top = rule@.output;
        proof {
            layer::lemma_narrowed_refines(before.cells, top.cells, row as int, col as int);
            layer::lemma_narrowed_refines(before.hlinks, top.hlinks, row as int, col as int);
            layer::lemma_narrowed_refines(before.vlinks, top.vlinks, row as int, col as int);
            layer::lemma_narrowed_refines(before.corners, top.corners, 2 * row, 2 * col);
            lemma_ring_stays(before, before.narrowed(top, row as int, col as int));
        }
        let cells = layer::narrow_layer(&mut self.cells, pattern.cells(), row, col, h, w);
        let hlinks = layer::narrow_layer(&mut self.hlinks, pattern.hlinks(), row, col, h + 1, w);
        let vlinks = layer::narrow_layer(&mut self.vlinks, pattern.vlinks(), row, col, h, w + 1);
        let corners = layer::narrow_layer(
            &mut self.corners,
            pattern.corners(),
            2 * row,
            2 * col,
            2 * h,
            2 * w,
        );
        Some(cells || hlinks || vlinks || corners)
    }

    /// Applies `rule` with the first cell of its patterns on (`row`, `col`),
    /// after a test that the rule's output does not contradict the grid.
    ///
    /// Where the rule contradicts the grid, the grid stays as it is and the
    /// result is the error. Otherwise the result is that of
    /// `try_apply_rule`.
    pub fn apply_rule(&mut self, rule: &Rule, row: usize, col: usize) -> (res: Result<
        Option<bool>,
        Contradiction,
    >)
        requires
            old(self)@.is_grid(),
        ensures
            res is Err <==> rule@.contradicts(old(self)@, row as int, col as int),
            res is Err ==> final(self)@ == old(self)@,
            res matches Ok(r) ==> (final(self)@, r) == rule@.outcome(
                old(self)@,
                row as int,
                col as int,
            ),
            res matches Ok(Some(_)) ==> rule@.spent(final(self)@, row as int, col as int),
            final(self)@.refines(old(self)@),
            final(self)@.is_grid(),
    {
        proof {
            lemma_refines_self(self@);
        }
        if self.matches_rule(rule, row, col) {
            let pattern = rule.rule_out();
            if !self.agrees_with(rule, row, col) {
                return Err(Contradiction);
            }
        }
        Ok(self.try_apply_rule(rule, row, col))
    }

    /// Narrows the cell at (`row`, `col`) to its meet with `to`, and says
    /// whether the cell changed.
    pub fn narrow_cell(&mut self, row: usize, col: usize, to: CellType) -> (changed: bool)
        requires
            old(self)@.is_grid(),
            row < old(self)@.height,
            col < old(self)@.width,
            meets(old(self)@.cells[row as int][col as int], to),
        ensures
            final(self)@ == (Layers {
                cells: old(self)@.cells.update(
                    row as int,
                    old(self)@.cells[row as int].update(
                        col as int,
                        meet(old(self)@.cells[row as int][col as int], to),
                    ),
                ),
                ..old(self)@
            }),
            changed == (final(self)@ != old(self)@),
            final(self)@.refines(old(self)@),
            final(self)@.is_grid(),
    {
        proof {
            assert(rows_of(self.cells)[row as int].len() == self.width);
        }
        layer::narrow_at(&mut self.cells, row, col, to)
    }

    /// Narrows the horizontal link at (`row`, `col`) to its meet with `to`,
    /// and says whether the link changed.
    pub fn narrow_hlink(&mut self, row: usize, col: usize, to: LinkType) -> (changed: bool)
        requires
            old(self)@.is_grid(),
            row <= old(self)@.height,
            col < old(self)@.width,
            meets(old(self)@.hlinks[row as int][col as int], to),
        ensures
            final(self)@ == (Layers {
                hlinks: old(self)@.hlinks.update(
                    row as int,
                    old(self)@.hlinks[row as int].update(
                        col as int,
                        meet(old(self)@.hlinks[row as int][col as int], to),
                    ),
                ),
                ..old(self)@
            }),
            changed == (final(self)@ != old(self)@),
            final(self)@.refines(old(self)@),
            final(self)@.is_grid(),
    {
        let ghost before = self@;
        proof {
            assert(rows_of(self.hlinks)[row as int].len() == self.width);
        }
        let changed = layer::narrow_at(&mut self.hlinks, row, col, to);
        proof {
            lemma_ring_stays(before, self@);
        }
        changed
    }

    /// Narrows the vertical link at (`row`, `col`) to its meet with `to`,
    /// and says whether the link changed.
    pub fn narrow_vlink(&mut self, row: usize, col: usize, to: LinkType) -> (changed: bool)
        requires
            old(self)@.is_grid(),
            row < old(self)@.height,
            col <= old(self)@.width,
            meets(old(self)@.vlinks[row as int][col as int], to),
        ensures
            final(self)@ == (Layers {
                vlinks: old(self)@.vlinks.update(
                    row as int,
                    old(self)@.vlinks[row as int].update(
                        col as int,
                        meet(old(self)@.vlinks[row as int][col as int], to),
                    ),
                ),
                ..old(self)@
            }),
            changed == (final(self)@ != old(self)@),
            final(self)@.refines(old(self)@),
            final(self)@.is_grid(),
    {
        let ghost before = self@;
        proof {
            assert(rows_of(self.vlinks)[row as int].len() == self.width + 1);
        }
        let changed = layer::narrow_at(&mut self.vlinks, row, col, to);
        proof {
            lemma_ring_stays(before, self@);
        }
        changed
    }

    /// Narrows the corner quadrant at (`row`, `col`) of the corner layer to
    /// its meet with `to`, and says whether the corner changed.
    pub fn narrow_corner(&mut self, row: usize, col: usize, to: CornerType) -> (changed: bool)
        requires
            old(self)@.is_grid(),
            row < 2 * old(self)@.height,
            col < 2 * old(self)@.width,
            meets(old(self)@.corners[row as int][col as int], to),
        ensures
            final(self)@ == (Layers {
                corners: old(self)@.corners.update(
                    row as int,
                    old(self)@.corners[row as int].update(
                        col as int,
                        meet(old(self)@.corners[row as int][col as int], to),
                    ),
                ),
                ..old(self)@
            }),
            changed == (final(self)@ != old(self)@),
            final(self)@.refines(old(self)@),
            final(self)@.is_grid(),
    {
        let ghost before = self@;
        proof {
            assert(rows_of(self.corners)[row as int].len() == 2 * self.width);
        }
        let changed = layer::narrow_at(&mut self.corners, row, col, to);
        proof {
            lemma_ring_stays(before, self@);
        }
        changed
    }
}

/// The output of a rule has no meet with the grid at some position where
/// the rule applies: the rule and what the grid knows cannot both hold.
#[derive(Clone, Copy, Debug, PartialEq, Eq, Structural)]
pub struct Contradiction;

/// A rule that was applied has nothing more to say at the same place: it
/// applies there again, and applying it again changes nothing.
pub proof fn lemma_reapply(rule: RuleView, g: Layers, row: int, col: int)
    requires
        g.wf(),
        rule.wf(),
        rule.applies(g, row, col),
        !rule.contradicts(g, row, col),
    ensures
        rule.spent(rule.applied(g, row, col), row, col),
        rule.outcome(rule.applied(g, row, col), row, col) == (
            rule.applied(g, row, col),
            Some(false),
        ),
{
    let p = rule.output;
    let q = rule.input;
    let h = p.height;
    let w = p.width;
    layer::lemma_narrowed_again(g.cells, p.cells, q.cells, row, col, h, w);
    layer::lemma_narrowed_again(g.hlinks, p.hlinks, q.hlinks, row, col, h + 1, w);
    layer::lemma_narrowed_again(g.vlinks, p.vlinks, q.vlinks, row, col, h, w + 1);
    layer::lemma_narrowed_again(g.corners, p.corners, q.corners, 2 * row, 2 * col, 2 * h, 2 * w);
}

/// A rule whose patterns are higher or wider than the grid applies nowhere:
/// every attempt leaves the grid as it is and gives no answer.
pub proof fn lemma_oversized(rule: RuleView, g: Layers, row: int, col: int)
    requires
        rule.input.height > g.height || rule.input.width > g.width,
    ensures
        !rule.applies(g, row, col),
        rule.outcome(g, row, col) == (g, None::<bool>),
{
}

/// Every grid refines itself.
pub proof fn lemma_refines_self(g: Layers)
    ensures
        g.refines(g),
{
}

/// Narrowing a grid leaves its closed ring closed: the states on the ring
/// are the most specific ones already.
pub proof fn lemma_ring_stays(g: Layers, n: Layers)
    requires
        g.wf(),
        g.closed_ring(),
        n.refines(g),
    ensures
        n.wf(),
        n.closed_ring(),
{
    assert forall|r: int, c: int|
        0 <= r <= n.height && 0 <= c < n.width && on_ring(
            r,
            c,
            n.height + 1,
            n.width,
        ) implies #[trigger] n.hlinks[r][c] == LinkType::Unlink by {
        assert(n.hlinks[r].len() == g.hlinks[r].len());
        assert(g.hlinks[r][c] == LinkType::Unlink);
        crate::element::lemma_unlink_least(n.hlinks[r][c]);
    }
    assert forall|r: int, c: int|
        0 <= r < n.height && 0 <= c <= n.width && on_ring(
            r,
            c,
            n.height,
            n.width + 1,
        ) implies #[trigger] n.vlinks[r][c] == LinkType::Unlink by {
        assert(n.vlinks[r].len() == g.vlinks[r].len());
        assert(g.vlinks[r][c] == LinkType::Unlink);
        crate::element::lemma_unlink_least(n.vlinks[r][c]);
    }
    assert forall|r: int, c: int|
        0 <= r < 2 * n.height && 0 <= c < 2 * n.width && on_ring(
            r,
            c,
            2 * n.height,
            2 * n.width,
        ) implies #[trigger] n.corners[r][c] == CornerType::CZero by {
        assert(n.corners[r].len() == g.corners[r].len());
        assert(g.corners[r][c] == CornerType::CZero);
        crate::element::lemma_zero_least(n.corners[r][c]);
    }
}

} // verus!
