use crate::display::components::{
    resize_outcome, DisplayError, RenderSurface, SurfaceModel, TerminalDisplay, CELL_HEIGHT,
    CELL_WIDTH,
};
use crate::display::frame::{Cell, CellGrid, TerminalFrameBuffer};
use crate::display::glyphs::{
    block_glyph, braille_glyph, braille_pattern, glyph_for, lemma_uniform_block_sum,
    lit, ramp_glyph, ramp_level, BRAILLE_HEIGHT, BRAILLE_WIDTH,
};
use crate::display::pixels::{PixelBuffer, PixelGrid};
use crate::input::events::TerminalInputEvent;
use ratatui::style::Style;
use vstd::prelude::*;

verus! {

/// Number of whole blocks of `block` pixels in an extent of `pixels` pixels,
/// capped at the largest terminal coordinate. Pixels past the last whole
/// block are not shown. A block of no pixels gives no cell.
pub open spec fn grid_extent(pixels: nat, block: u32) -> nat {
    if block == 0 {
        0
    } else if pixels / (block as nat) > u16::MAX {
        u16::MAX as nat
    } else {
        pixels / (block as nat)
    }
}

/// The frame that shows `img`: one cell for each whole block of
/// `cell_width` by `cell_height` pixels, holding the glyph chosen for the
/// block, in the given style.
pub open spec fn presented(img: PixelGrid, cell_width: u32, cell_height: u32, style: Style)
    -> CellGrid {
    CellGrid {
        cols: grid_extent(img.width, cell_width),
        lines: Seq::new(
            grid_extent(img.height, cell_height),
            |cy: int|
                Seq::new(
                    grid_extent(img.width, cell_width),
                    |cx: int|
                        Cell { glyph: glyph_for(img, cx, cy, cell_width, cell_height), style },
                ),
        ),
    }
}

/// The glyph that every block of an image of uniform luminance `value` is
/// shown by.
pub open spec fn uniform_glyph(value: u8, cell_width: u32, cell_height: u32) -> char {
    if cell_width == BRAILLE_WIDTH && cell_height == BRAILLE_HEIGHT {
        braille_glyph(
            if lit(value) {
                0xFF
            } else {
                0
            },
        )
    } else {
        ramp_glyph(ramp_level(value * (cell_width * cell_height), cell_width * cell_height))
    }
}

/// The block of cell `index` lies inside the extent it was counted from.
proof fn lemma_block_inside(index: int, pixels: nat, block: u32)
    requires
        0 <= index < grid_extent(pixels, block),
    ensures
        block > 0,
        0 <= index * block,
        (index + 1) * block <= pixels,
{
    let whole = pixels as int / block as int;
    assert(whole * block <= pixels) by (nonlinear_arith)
        requires
            whole == pixels as int / block as int,
            block > 0,
            pixels >= 0,
    ;
    assert((index + 1) * block <= whole * block && 0 <= index * block) by (nonlinear_arith)
        requires
            0 <= index,
            index + 1 <= whole,
            block > 0,
    ;
}

/// An image of one luminance throughout is shown as a frame of one cell
/// throughout: every cell holds the same glyph in the given style.
pub proof fn lemma_uniform_image_presents_uniformly(
    img: PixelGrid,
    cell_width: u32,
    cell_height: u32,
    style: Style,
    value: u8,
)
    requires
        img.well_formed(),
        forall|x: int, y: int| img.in_bounds(x, y) ==> #[trigger] img.at(x, y) == value,
    ensures
        presented(img, cell_width, cell_height, style) == CellGrid::filled(
            grid_extent(img.width, cell_width),
            grid_extent(img.height, cell_height),
            Cell { glyph: uniform_glyph(value, cell_width, cell_height), style },
        ),
{
    let shown = presented(img, cell_width, cell_height, style);
    let cols = grid_extent(img.width, cell_width);
    let rows = grid_extent(img.height, cell_height);
    let cell = Cell { glyph: uniform_glyph(value, cell_width, cell_height), style };
    let uniform = CellGrid::filled(cols, rows, cell);
    assert forall|cy: int| 0 <= cy < rows implies #[trigger] shown.lines[cy]
        =~= uniform.lines[cy] by {
        assert forall|cx: int| 0 <= cx < cols implies shown.lines[cy][cx] == cell by {
            lemma_block_inside(cx, img.width, cell_width);
            lemma_block_inside(cy, img.height, cell_height);
            let x0 = cx * cell_width;
            let y0 = cy * cell_height;
            assert((cx + 1) * cell_width == x0 + cell_width) by (nonlinear_arith)
                requires
                    x0 == cx * cell_width,
            ;
            assert((cy + 1) * cell_height == y0 + cell_height) by (nonlinear_arith)
                requires
                    y0 == cy * cell_height,
            ;
            assert forall|dx: int, dy: int|
                0 <= dx < cell_width && 0 <= dy < cell_height implies #[trigger] img.at(
                x0 + dx,
                y0 + dy,
            ) == value by {
                assert(img.in_bounds(x0 + dx, y0 + dy));
            }
            if cell_width == BRAILLE_WIDTH && cell_height == BRAILLE_HEIGHT {
                assert(img.at(x0 + 0, y0 + 0) == value);
                assert(img.at(x0 + 0, y0 + 1) == value);
                assert(img.at(x0 + 0, y0 + 2) == value);
                assert(img.at(x0 + 0, y0 + 3) == value);
                assert(img.at(x0 + 1, y0 + 0) == value);
                assert(img.at(x0 + 1, y0 + 1) == value);
                assert(img.at(x0 + 1, y0 + 2) == value);
                assert(img.at(x0 + 1, y0 + 3) == value);
                assert(braille_pattern(img, x0, y0) == if lit(value) {
                    0xFF
                } else {
                    0int
                });
            } else {
                lemma_uniform_block_sum(
                    img,
                    x0,
                    y0,
                    cell_width as nat,
                    cell_height as nat,
                    value,
                );
            }
        }
    }
    assert(shown.lines =~= uniform.lines);
}

/// Number of whole blocks of `block` pixels in an extent of `pixels` pixels,
/// capped at the largest terminal coordinate.
fn extent(pixels: u32, block: u32) -> (cells: u16)
    ensures
        cells == grid_extent(pixels as nat, block),
{
    if block == 0 {
        0
    } else {
        let whole: u32 = pixels / block;
        if whole > 0xFFFF {
            0xFFFF
        } else {
            whole as u16
        }
    }
}

/// Converts the quantized image into the frame that shows it. Each cell
/// stands for one whole block of `cell_width` by `cell_height` pixels and
/// holds the glyph chosen for that block, in `style`. The result depends on
/// nothing but the arguments. An image without pixels, or a block without
/// pixels, gives a frame without cells.
pub fn present(pixels: &PixelBuffer, cell_width: u32, cell_height: u32, style: Style) -> (frame:
    TerminalFrameBuffer)
    ensures
        frame@ == presented(pixels@, cell_width, cell_height, style),
{
    let cols = extent(pixels.width(), cell_width);
    let rows = extent(pixels.height(), cell_height);
    let blank = Cell { glyph: ' ', style };
    let mut frame = TerminalFrameBuffer::new(cols, rows, blank);
    let ghost target = presented(pixels@, cell_width, cell_height, style);
    let mut cy: u16 = 0;
    while cy < rows
        invariant
            cy <= rows,
            cols == grid_extent(pixels@.width, cell_width),
            rows == grid_extent(pixels@.height, cell_height),
            target == presented(pixels@, cell_width, cell_height, style),
            frame@.cols == cols,
            frame@.rows() == rows,
            forall|x: int, y: int|
                0 <= x < cols && 0 <= y < rows ==> #[trigger] frame@.at(x, y) == (if y < cy {
                    target.at(x, y)
                } else {
                    blank
                }),
        decreases rows - cy,
    {
        let mut cx: u16 = 0;
        while cx < cols
            invariant
                cx <= cols,
                cy < rows,
                cols == grid_extent(pixels@.width, cell_width),
                rows == grid_extent(pixels@.height, cell_height),
                target == presented(pixels@, cell_width, cell_height, style),
                frame@.cols == cols,
                frame@.rows() == rows,
                forall|x: int, y: int|
                    0 <= x < cols && 0 <= y < rows ==> #[trigger] frame@.at(x, y) == (if y < cy || (
                    y == cy && x < cx) {
                        target.at(x, y)
                    } else {
                        blank
                    }),
            decreases cols - cx,
        {
            proof {
                lemma_block_inside(cx as int, pixels@.width, cell_width);
                lemma_block_inside(cy as int, pixels@.height, cell_height);
                frame.lemma_view_well_formed();
            }
            let ghost previous = frame@;
            let glyph = block_glyph(pixels, cx, cy, cell_width, cell_height);
            let written = frame.set(cx, cy, Cell { glyph, style });
            assert forall|x: int, y: int| 0 <= x < cols && 0 <= y < rows implies #[trigger] frame@.at(
                x,
                y,
            ) == (if y < cy || (y == cy && x < cx + 1) {
                target.at(x, y)
            } else {
                blank
            }) by {
                assert(previous.at(x, y) == (if y < cy || (y == cy && x < cx) {
                    target.at(x, y)
                } else {
                    blank
                }));
            }
            cx = cx + 1;
        }
        cy = cy + 1;
    }
    proof {
        frame.lemma_view_well_formed();
        let shown = frame@;
        assert forall|y: int| 0 <= y < rows implies #[trigger] shown.lines[y] =~= target.lines[y] by {
            assert forall|x: int| 0 <= x < cols implies shown.lines[y][x] == target.lines[y][x] by {
                assert(shown.at(x, y) == target.at(x, y));
            }
        }
        assert(shown.lines =~= target.lines);
    }
    frame
}

/// The surface after one event: a resize that reports a new size which the
/// machine can address gives the surface that size; any other event leaves
/// the surface as it is.
pub open spec fn resize_step(surface: SurfaceModel, event: TerminalInputEvent) -> SurfaceModel {
    match event {
        TerminalInputEvent::Resize(cols, rows) => if resize_outcome(surface, cols, rows) is Ok {
            surface.resized(cols, rows)
        } else {
            surface
        },
        _ => surface,
    }
}

/// The surface after the events of `events`, first to last.
pub open spec fn resized_by(surface: SurfaceModel, events: Seq<TerminalInputEvent>)
    -> SurfaceModel
    decreases events.len(),
{
    if events.len() == 0 {
        surface
    } else {
        resize_step(resized_by(surface, events.drop_last()), events.last())
    }
}

/// Whether one of the events of `events` gives the surface a size it did not
/// have when the event arrived.
pub open spec fn reallocated_by(surface: SurfaceModel, events: Seq<TerminalInputEvent>) -> bool
    decreases events.len(),
{
    if events.len() == 0 {
        false
    } else {
        reallocated_by(surface, events.drop_last()) || (match events.last() {
            TerminalInputEvent::Resize(cols, rows) => resize_outcome(
                resized_by(surface, events.drop_last()),
                cols,
                rows,
            ) == Ok::<bool, DisplayError>(true),
            _ => false,
        })
    }
}

/// A surface shows as a frame of as many cells as the terminal it was sized
/// for.
pub proof fn lemma_surface_fills_terminal(surface: SurfaceModel)
    requires
        surface.well_formed(),
    ensures
        grid_extent(surface.pixels.width, CELL_WIDTH) == surface.cols,
        grid_extent(surface.pixels.height, CELL_HEIGHT) == surface.rows,
{
}

/// Follows the resizes among this cycle's events: the surface is adapted to
/// each new size in turn. A size whose image the machine cannot address is
/// passed over and the surface keeps the size it has. Returns whether the
/// surface was allocated anew, in which case the camera has to be pointed at
/// it again.
pub fn resize_handling(surface: &mut RenderSurface, events: &Vec<TerminalInputEvent>) -> (reallocated:
    bool)
    ensures
        final(surface)@ == resized_by(old(surface)@, events@),
        reallocated == reallocated_by(old(surface)@, events@),
        final(surface)@.well_formed(),
        final(surface)@.handle == old(surface)@.handle,
{
    let mut reallocated = false;
    let mut i: usize = 0;
    // Reading the image brings the invariant of the surface into scope.
    let _ = surface.pixels();
    while i < events.len()
        invariant
            i <= events.len(),
            surface@ == resized_by(old(surface)@, events@.take(i as int)),
            reallocated == reallocated_by(old(surface)@, events@.take(i as int)),
            surface@.well_formed(),
            surface@.handle == old(surface)@.handle,
        decreases events.len() - i,
    {
        assert(events@.take(i + 1).drop_last() == events@.take(i as int));
        match events[i] {
            TerminalInputEvent::Resize(cols, rows) => {
                match surface.on_resize(cols, rows) {
                    Ok(changed) => {
                        reallocated = reallocated || changed;
                    },
                    Err(_) => {},
                }
            },
            _ => {},
        }
        i = i + 1;
    }
    assert(events@.take(events.len() as int) == events@);
    reallocated
}

/// Converts the image on the surface into the frame that shows it, in the
/// style of the display: one cell for each block of `CELL_WIDTH` by
/// `CELL_HEIGHT` pixels, as many cells as the terminal has.
pub fn present_surface(display: &TerminalDisplay, surface: &RenderSurface) -> (frame:
    TerminalFrameBuffer)
    ensures
        frame@ == presented(surface@.pixels, CELL_WIDTH, CELL_HEIGHT, display.style),
        frame@.cols == surface@.cols,
        frame@.rows() == surface@.rows,
{
    let pixels = surface.pixels();
    proof {
        lemma_surface_fills_terminal(surface@);
    }
    present(pixels, CELL_WIDTH, CELL_HEIGHT, display.style)
}

} // verus!
