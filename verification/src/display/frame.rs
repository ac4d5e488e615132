use crate::display::layout::{
    flat_index, lemma_cell_count_fits, lemma_flat_index_in_range, lemma_flat_index_injective,
};
use ratatui::style::Style;
use vstd::prelude::*;

verus! {

/// The style type of `ratatui`. The library never looks inside a style: it
/// stores the one it is given in every cell it writes and hands it back.
#[verifier::external_type_specification]
#[verifier::external_body]
pub struct ExStyle(ratatui::style::Style);

/// One character position of the terminal grid: a glyph and its style.
#[derive(Clone, Copy, Debug, PartialEq, Eq)]
pub struct Cell {
    /// Character shown at this position.
    pub glyph: char,
    /// Style the character is shown in.
    pub style: Style,
}

/// A rectangle of terminal cells, given by its top-left corner and extent.
#[derive(Clone, Copy, Debug, PartialEq, Eq, Structural)]
pub struct Region {
    /// Column of the left edge.
    pub x: u16,
    /// Line of the top edge.
    pub y: u16,
    /// Number of columns.
    pub width: u16,
    /// Number of lines.
    pub height: u16,
}

impl Region {
    /// Whether the cell at column `x` of line `y` lies inside the region.
    pub open spec fn covers(self, x: int, y: int) -> bool {
        &&& self.x <= x < self.x + self.width
        &&& self.y <= y < self.y + self.height
    }

    /// The largest region that lies inside both `self` and `other`. Where
    /// the two do not overlap its width or its height is zero.
    pub open spec fn intersect(self, other: Region) -> Region {
        let x = if self.x >= other.x { self.x } else { other.x };
        let y = if self.y >= other.y { self.y } else { other.y };
        let right = if self.x + self.width <= other.x + other.width {
            self.x + self.width
        } else {
            other.x + other.width
        };
        let bottom = if self.y + self.height <= other.y + other.height {
            self.y + self.height
        } else {
            other.y + other.height
        };
        Region {
            x,
            y,
            width: if right > x { (right - x) as u16 } else { 0 },
            height: if bottom > y { (bottom - y) as u16 } else { 0 },
        }
    }

    /// A cell lies in the intersection of two regions exactly when it lies
    /// in both.
    pub proof fn lemma_intersect_covers(self, other: Region, x: int, y: int)
        ensures
            self.intersect(other).covers(x, y) <==> self.covers(x, y) && other.covers(x, y),
    {
    }

    /// Region with the given corner and extent.
    pub fn new(x: u16, y: u16, width: u16, height: u16) -> (region: Region)
        ensures
            region == (Region { x, y, width, height }),
    {
        Region { x, y, width, height }
    }

    /// Whether the region holds no cell at all.
    pub fn is_empty(&self) -> (empty: bool)
        ensures
            empty == (self.width == 0 || self.height == 0),
            empty == !exists|x: int, y: int| self.covers(x, y),
    {
        proof {
            if self.width != 0 && self.height != 0 {
                assert(self.covers(self.x as int, self.y as int));
            }
        }
        self.width == 0 || self.height == 0
    }

    /// Whether the cell at column `x` of line `y` lies inside the region.
    pub fn contains(&self, x: u16, y: u16) -> (inside: bool)
        ensures
            inside == self.covers(x as int, y as int),
    {
        let right: u32 = self.x as u32 + self.width as u32;
        let bottom: u32 = self.y as u32 + self.height as u32;
        self.x <= x && (x as u32) < right && self.y <= y && (y as u32) < bottom
    }

    /// The part of the region that also lies inside `other`.
    pub fn intersection(&self, other: &Region) -> (common: Region)
        ensures
            common == self.intersect(*other),
            forall|x: int, y: int|
                #[trigger] common.covers(x, y) <==> self.covers(x, y) && other.covers(x, y),
    {
        let x: u16 = if self.x >= other.x { self.x } else { other.x };
        let y: u16 = if self.y >= other.y { self.y } else { other.y };
        let self_right: u32 = self.x as u32 + self.width as u32;
        let other_right: u32 = other.x as u32 + other.width as u32;
        let right: u32 = if self_right <= other_right { self_right } else { other_right };
        let self_bottom: u32 = self.y as u32 + self.height as u32;
        let other_bottom: u32 = other.y as u32 + other.height as u32;
        let bottom: u32 = if self_bottom <= other_bottom { self_bottom } else { other_bottom };
        let width: u16 = if right > x as u32 { (right - x as u32) as u16 } else { 0 };
        let height: u16 = if bottom > y as u32 { (bottom - y as u32) as u16 } else { 0 };
        Region { x, y, width, height }
    }
}

/// The mathematical content of a frame: `lines[y][x]` is the cell at column
/// `x` of line `y`.
pub struct CellGrid {
    /// Number of columns of every line.
    pub cols: nat,
    /// The lines, top to bottom.
    pub lines: Seq<Seq<Cell>>,
}

impl CellGrid {
    /// Number of lines.
    pub open spec fn rows(self) -> nat {
        self.lines.len()
    }

    /// Every line has exactly `cols` cells.
    pub open spec fn well_formed(self) -> bool {
        forall|y: int| 0 <= y < self.lines.len() ==> (#[trigger] self.lines[y]).len() == self.cols
    }

    /// Whether column `x` of line `y` is a position of the grid.
    pub open spec fn in_bounds(self, x: int, y: int) -> bool {
        0 <= x < self.cols && 0 <= y < self.lines.len()
    }

    /// The cell at column `x` of line `y`.
    pub open spec fn at(self, x: int, y: int) -> Cell
        recommends
            self.in_bounds(x, y),
    {
        self.lines[y][x]
    }

    /// The cell at column `x` of line `y`, or `fill` where the grid has no
    /// such position.
    pub open spec fn cell_or(self, x: int, y: int, fill: Cell) -> Cell {
        if self.in_bounds(x, y) {
            self.at(x, y)
        } else {
            fill
        }
    }

    /// The grid of `cols` by `rows` cells that all equal `cell`.
    pub open spec fn filled(cols: nat, rows: nat, cell: Cell) -> CellGrid {
        CellGrid { cols, lines: Seq::new(rows, |y: int| Seq::new(cols, |x: int| cell)) }
    }

    /// The grid with the cell at column `x` of line `y` replaced by `cell`.
    pub open spec fn with_cell(self, x: int, y: int, cell: Cell) -> CellGrid
        recommends
            self.in_bounds(x, y),
    {
        CellGrid { cols: self.cols, lines: self.lines.update(y, self.lines[y].update(x, cell)) }
    }

    /// The region that spans the whole grid.
    pub open spec fn area(self) -> Region
        recommends
            self.cols <= u16::MAX,
            self.lines.len() <= u16::MAX,
    {
        Region { x: 0, y: 0, width: self.cols as u16, height: self.lines.len() as u16 }
    }
}

/// The result of painting `patch` over `region` of `base`: inside the region
/// every cell of `base` is replaced by the cell of `patch` at the same offset
/// from the region's corner, or by `fill` where `patch` has no such cell;
/// outside it `base` is unchanged. Nothing of `base` survives inside the
/// region.
pub open spec fn composited(base: CellGrid, region: Region, patch: CellGrid, fill: Cell)
    -> CellGrid {
    CellGrid {
        cols: base.cols,
        lines: Seq::new(
            base.lines.len(),
            |y: int|
                Seq::new(
                    base.cols,
                    |x: int|
                        if region.covers(x, y) {
                            patch.cell_or(x - region.x, y - region.y, fill)
                        } else {
                            base.lines[y][x]
                        },
                ),
        ),
    }
}

/// Painting over a region replaces what was there: inside the region the
/// result is the same whatever the frame held before.
pub proof fn lemma_composited_replaces_region(
    first: CellGrid,
    second: CellGrid,
    region: Region,
    patch: CellGrid,
    fill: Cell,
    x: int,
    y: int,
)
    requires
        first.cols == second.cols,
        first.rows() == second.rows(),
        first.in_bounds(x, y),
        region.covers(x, y),
    ensures
        composited(first, region, patch, fill).at(x, y) == composited(
            second,
            region,
            patch,
            fill,
        ).at(x, y),
        composited(first, region, patch, fill).at(x, y) == patch.cell_or(
            x - region.x,
            y - region.y,
            fill,
        ),
{
}

/// Painting over a region leaves every cell outside the region as it was.
pub proof fn lemma_composited_keeps_outside(
    base: CellGrid,
    region: Region,
    patch: CellGrid,
    fill: Cell,
    x: int,
    y: int,
)
    requires
        base.in_bounds(x, y),
        !region.covers(x, y),
    ensures
        composited(base, region, patch, fill).at(x, y) == base.at(x, y),
{
}

/// The in-memory grid of terminal cells that makes up one frame.
#[derive(Debug, PartialEq, Eq)]
pub struct TerminalFrameBuffer {
    cols: u16,
    rows: u16,
    cells: Vec<Cell>,
}

impl View for TerminalFrameBuffer {
    type V = CellGrid;

    closed spec fn view(&self) -> CellGrid {
        CellGrid {
            cols: self.cols as nat,
            lines: Seq::new(
                self.rows as nat,
                |y: int|
                    Seq::new(
                        self.cols as nat,
                        |x: int| self.cells@[flat_index(x, y, self.cols as int)],
                    ),
            ),
        }
    }
}

impl Clone for TerminalFrameBuffer {
    fn clone(&self) -> (copy: Self)
        ensures
            copy@ == self@,
    {
        proof {
            use_type_invariant(self);
        }
        let cells = self.cells.clone();
        assert(cells@ =~= self.cells@);
        TerminalFrameBuffer { cols: self.cols, rows: self.rows, cells }
    }
}

impl TerminalFrameBuffer {
    #[verifier::type_invariant]
    spec fn storage_matches_extent(&self) -> bool {
        self.cells@.len() == self.cols * self.rows
    }

    /// The content of every frame is a well-formed grid whose extents are
    /// terminal coordinates.
    pub proof fn lemma_view_well_formed(self)
        ensures
            self@.well_formed(),
            self@.cols <= u16::MAX,
            self@.rows() <= u16::MAX,
    {
    }

    /// Frame of `cols` by `rows` cells that all equal `fill`.
    pub fn new(cols: u16, rows: u16, fill: Cell) -> (frame: TerminalFrameBuffer)
        ensures
            frame@ == CellGrid::filled(cols as nat, rows as nat, fill),
    {
        proof {
            lemma_cell_count_fits(cols, rows);
        }
        let count: usize = cols as usize * rows as usize;
        let cells: Vec<Cell> = vec![fill; count];
        let frame = TerminalFrameBuffer { cols, rows, cells };
        proof {
            assert forall|y: int| 0 <= y < rows implies #[trigger] frame@.lines[y]
                =~= CellGrid::filled(cols as nat, rows as nat, fill).lines[y] by {
                assert forall|x: int| 0 <= x < cols implies frame@.lines[y][x] == fill by {
                    lemma_flat_index_in_range(x, y, cols as int, rows as int);
                }
            }
            assert(frame@.lines =~= CellGrid::filled(cols as nat, rows as nat, fill).lines);
        }
        frame
    }

    /// Number of columns.
    pub fn cols(&self) -> (cols: u16)
        ensures
            cols == self@.cols,
    {
        self.cols
    }

    /// Number of lines.
    pub fn rows(&self) -> (rows: u16)
        ensures
            rows == self@.rows(),
    {
        self.rows
    }

    /// Whether the frame holds no cell at all.
    pub fn is_empty(&self) -> (empty: bool)
        ensures
            empty == (self@.cols == 0 || self@.rows() == 0),
    {
        self.cols == 0 || self.rows == 0
    }

    /// The region that spans the whole frame.
    pub fn area(&self) -> (area: Region)
        ensures
            area == self@.area(),
            forall|x: int, y: int| #[trigger] area.covers(x, y) <==> self@.in_bounds(x, y),
    {
        Region { x: 0, y: 0, width: self.cols, height: self.rows }
    }

    /// The part of `region` that lies inside the frame.
    pub fn clip(&self, region: Region) -> (visible: Region)
        ensures
            visible == region.intersect(self@.area()),
            forall|x: int, y: int|
                #[trigger] visible.covers(x, y) <==> region.covers(x, y) && self@.in_bounds(x, y),
    {
        let area = self.area();
        region.intersection(&area)
    }

    /// The cell at column `x` of line `y`, if the frame has one there.
    pub fn get(&self, x: u16, y: u16) -> (cell: Option<Cell>)
        ensures
            cell == (if self@.in_bounds(x as int, y as int) {
                Some(self@.at(x as int, y as int))
            } else {
                None
            }),
    {
        proof {
            use_type_invariant(self);
        }
        if x < self.cols && y < self.rows {
            proof {
                lemma_flat_index_in_range(x as int, y as int, self.cols as int, self.rows as int);
                lemma_cell_count_fits(self.cols, self.rows);
            }
            let index: usize = y as usize * self.cols as usize + x as usize;
            Some(self.cells[index])
        } else {
            None
        }
    }

    /// Replaces the cell at column `x` of line `y`. Returns whether the frame
    /// has such a position; where it has none the frame is left as it was.
    pub fn set(&mut self, x: u16, y: u16, cell: Cell) -> (written: bool)
        ensures
            written == old(self)@.in_bounds(x as int, y as int),
            written ==> final(self)@ == old(self)@.with_cell(x as int, y as int, cell),
            !written ==> final(self)@ == old(self)@,
    {
        proof {
            use_type_invariant(&*self);
        }
        if x < self.cols && y < self.rows {
            proof {
                lemma_flat_index_in_range(x as int, y as int, self.cols as int, self.rows as int);
                lemma_cell_count_fits(self.cols, self.rows);
            }
            let index: usize = y as usize * self.cols as usize + x as usize;
            self.cells[index] = cell;
            proof {
                let before = old(self)@;
                let after = self@;
                let expected = before.with_cell(x as int, y as int, cell);
                assert forall|line: int| 0 <= line < self.rows implies #[trigger] after.lines[line]
                    =~= expected.lines[line] by {
                    assert forall|col: int| 0 <= col < self.cols implies after.lines[line][col]
                        == expected.lines[line][col] by {
                        lemma_flat_index_in_range(
                            col,
                            line,
                            self.cols as int,
                            self.rows as int,
                        );
                        if flat_index(col, line, self.cols as int) == index as int {
                            lemma_flat_index_injective(
                                col,
                                line,
                                x as int,
                                y as int,
                                self.cols as int,
                            );
                        }
                    }
                }
                assert(after.lines =~= expected.lines);
            }
            true
        } else {
            false
        }
    }

    /// Fills every cell of the frame that lies in `region` with `cell`.
    pub fn fill(&mut self, region: Region, cell: Cell)
        ensures
            final(self)@ == composited(old(self)@, region, CellGrid::filled(0, 0, cell), cell),
            final(self)@.cols == old(self)@.cols,
            final(self)@.rows() == old(self)@.rows(),
            forall|x: int, y: int|
                old(self)@.in_bounds(x, y) ==> #[trigger] final(self)@.at(x, y) == (if region.covers(
                    x,
                    y,
                ) {
                    cell
                } else {
                    old(self)@.at(x, y)
                }),
    {
        let blank = TerminalFrameBuffer::new(0, 0, cell);
        self.paint(region, &blank, cell);
    }

    /// Composites `patch` over `region` of the frame. Every cell of the frame
    /// inside `region` is overwritten: by the cell of `patch` at the same
    /// offset from the region's corner, or by `fill` where `patch` has none.
    /// Cells outside `region` keep their content.
    pub fn paint(&mut self, region: Region, patch: &TerminalFrameBuffer, fill: Cell)
        ensures
            final(self)@ == composited(old(self)@, region, patch@, fill),
    {
        let visible = self.clip(region);
        let ghost before = self@;
        let ghost target = composited(before, region, patch@, fill);
        let mut dy: u16 = 0;
        while dy < visible.height
            invariant
                dy <= visible.height,
                visible == region.intersect(before.area()),
                forall|x: int, y: int|
                    #[trigger] visible.covers(x, y) <==> region.covers(x, y) && before.in_bounds(
                        x,
                        y,
                    ),
                before.cols <= u16::MAX,
                before.rows() <= u16::MAX,
                target == composited(before, region, patch@, fill),
                self@.cols == before.cols,
                self@.rows() == before.rows(),
                forall|x: int, y: int|
                    before.in_bounds(x, y) ==> #[trigger] self@.at(x, y) == (if visible.covers(x, y)
                        && y < visible.y + dy {
                        target.at(x, y)
                    } else {
                        before.at(x, y)
                    }),
            decreases visible.height - dy,
        {
            let mut dx: u16 = 0;
            while dx < visible.width
                invariant
                    dx <= visible.width,
                    dy < visible.height,
                    visible == region.intersect(before.area()),
                    forall|x: int, y: int|
                        #[trigger] visible.covers(x, y) <==> region.covers(x, y)
                            && before.in_bounds(x, y),
                    before.cols <= u16::MAX,
                    before.rows() <= u16::MAX,
                    target == composited(before, region, patch@, fill),
                    self@.cols == before.cols,
                    self@.rows() == before.rows(),
                    forall|x: int, y: int|
                        before.in_bounds(x, y) ==> #[trigger] self@.at(x, y) == (if visible.covers(
                            x,
                            y,
                        ) && (y < visible.y + dy || (y == visible.y + dy && x < visible.x + dx)) {
                            target.at(x, y)
                        } else {
                            before.at(x, y)
                        }),
                decreases visible.width - dx,
            {
                let ghost previous = self@;
                assert(visible.covers(visible.x + dx, visible.y + dy));
                let x: u16 = visible.x + dx;
                let y: u16 = visible.y + dy;
                assert(visible.x == region.x && visible.y == region.y);
                let cell = match patch.get(dx, dy) {
                    Some(found) => found,
                    None => fill,
                };
                assert(cell == target.at(x as int, y as int));
                let written = self.set(x, y, cell);
                assert(written);
                assert forall|px: int, py: int| before.in_bounds(px, py) implies #[trigger] self@.at(
                    px,
                    py,
                ) == (if visible.covers(px, py) && (py < visible.y + dy || (py == visible.y + dy
                    && px < visible.x + dx + 1)) {
                    target.at(px, py)
                } else {
                    before.at(px, py)
                }) by {
                    assert(previous.at(px, py) == (if visible.covers(px, py) && (py < visible.y
                        + dy || (py == visible.y + dy && px < visible.x + dx)) {
                        target.at(px, py)
                    } else {
                        before.at(px, py)
                    }));
                }
                dx = dx + 1;
            }
            dy = dy + 1;
        }
        proof {
            self.lemma_view_well_formed();
            let after = self@;
            assert forall|y: int| 0 <= y < after.lines.len() implies #[trigger] after.lines[y]
                =~= target.lines[y] by {
                assert forall|x: int| 0 <= x < after.cols implies after.lines[y][x]
                    == target.lines[y][x] by {
                    assert(before.in_bounds(x, y));
                    assert(after.at(x, y) == if visible.covers(x, y) {
                        target.at(x, y)
                    } else {
                        before.at(x, y)
                    });
                }
            }
            assert(after.lines =~= target.lines);
        }
    }
}

} // verus!
