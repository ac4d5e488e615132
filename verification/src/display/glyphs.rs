use crate::display::pixels::{PixelBuffer, PixelGrid};
use vstd::prelude::*;

verus! {

/// A pixel at least this bright raises its dot in a braille glyph.
pub const LIT_THRESHOLD: u8 = 128;

/// Scalar value of the braille glyph with no dot raised.
pub const BRAILLE_BASE: u32 = 0x2800;

/// Width in pixels of the block that a braille glyph shows dot for dot.
pub const BRAILLE_WIDTH: u32 = 2;

/// Height in pixels of the block that a braille glyph shows dot for dot.
pub const BRAILLE_HEIGHT: u32 = 4;

/// Number of glyphs in the luminance ramp.
pub const RAMP_LEVELS: u32 = 10;

/// `char::from_u32` of the standard library: the character with the given
/// scalar value, which exists exactly for the values outside the surrogate
/// range and up to `0x10FFFF`.
#[verifier::external_body]
fn scalar_to_char(value: u32) -> (glyph: Option<char>)
    ensures
        glyph is Some <==> (value <= 0xD7FF || 0xE000 <= value <= 0x10FFFF),
        glyph matches Some(c) ==> c as u32 == value,
{
    char::from_u32(value)
}

/// Whether a pixel of this luminance counts as lit.
pub open spec fn lit(value: u8) -> bool {
    value >= LIT_THRESHOLD
}

/// The bit that stands for the dot at column `dx` (0 or 1) of line `dy`
/// (0 to 3) in the pattern of a braille glyph.
pub open spec fn dot_bit(dx: int, dy: int) -> int {
    if dx == 0 {
        if dy == 0 {
            0x01
        } else if dy == 1 {
            0x02
        } else if dy == 2 {
            0x04
        } else {
            0x40
        }
    } else {
        if dy == 0 {
            0x08
        } else if dy == 1 {
            0x10
        } else if dy == 2 {
            0x20
        } else {
            0x80
        }
    }
}

/// Contribution of the pixel at offset (`dx`, `dy`) from (`x0`, `y0`) to a
/// braille pattern: its dot's bit where the pixel is lit, nothing otherwise.
pub open spec fn dot(img: PixelGrid, x0: int, y0: int, dx: int, dy: int) -> int {
    if lit(img.at(x0 + dx, y0 + dy)) {
        dot_bit(dx, dy)
    } else {
        0
    }
}

/// Dot pattern of the 2 by 4 block of pixels whose top-left pixel is
/// (`x0`, `y0`): one bit per lit pixel.
pub open spec fn braille_pattern(img: PixelGrid, x0: int, y0: int) -> int {
    dot(img, x0, y0, 0, 0) + dot(img, x0, y0, 0, 1) + dot(img, x0, y0, 0, 2) + dot(
        img,
        x0,
        y0,
        0,
        3,
    ) + dot(img, x0, y0, 1, 0) + dot(img, x0, y0, 1, 1) + dot(img, x0, y0, 1, 2) + dot(
        img,
        x0,
        y0,
        1,
        3,
    )
}

/// The braille glyph that shows the dot pattern `pattern`.
pub open spec fn braille_glyph(pattern: int) -> char {
    ((BRAILLE_BASE + pattern) as u32) as char
}

/// The glyph of the luminance ramp for `level`, from blank to densest.
pub open spec fn ramp_glyph(level: int) -> char {
    if level <= 0 {
        ' '
    } else if level == 1 {
        '.'
    } else if level == 2 {
        ':'
    } else if level == 3 {
        '-'
    } else if level == 4 {
        '='
    } else if level == 5 {
        '+'
    } else if level == 6 {
        '*'
    } else if level == 7 {
        '#'
    } else if level == 8 {
        '%'
    } else {
        '@'
    }
}

/// Sum of the luminance of the `count` pixels of line `y` that start at
/// column `x0`.
pub open spec fn line_sum(img: PixelGrid, x0: int, y: int, count: nat) -> int
    decreases count,
{
    if count == 0 {
        0
    } else {
        line_sum(img, x0, y, (count - 1) as nat) + img.at(x0 + count - 1, y)
    }
}

/// Sum of the luminance of the block of `width` by `height` pixels whose
/// top-left pixel is (`x0`, `y0`).
pub open spec fn block_sum(img: PixelGrid, x0: int, y0: int, width: nat, height: nat) -> int
    decreases height,
{
    if height == 0 {
        0
    } else {
        block_sum(img, x0, y0, width, (height - 1) as nat) + line_sum(
            img,
            x0,
            y0 + height - 1,
            width,
        )
    }
}

/// Level of the luminance ramp for a block of `area` pixels whose luminance
/// sums to `sum`: the mean luminance scaled from 0..=255 to the ramp.
pub open spec fn ramp_level(sum: int, area: int) -> int {
    (sum * RAMP_LEVELS) / (area * 256)
}

/// The glyph that stands for the block of `cell_width` by `cell_height`
/// pixels at column `cx`, line `cy` of the cell grid. A 2 by 4 block is shown
/// dot for dot as a braille glyph; a block of any other extent is shown by
/// the ramp glyph for its mean luminance.
pub open spec fn glyph_for(img: PixelGrid, cx: int, cy: int, cell_width: u32, cell_height: u32)
    -> char {
    if cell_width == BRAILLE_WIDTH && cell_height == BRAILLE_HEIGHT {
        braille_glyph(braille_pattern(img, cx * cell_width, cy * cell_height))
    } else {
        ramp_glyph(
            ramp_level(
                block_sum(
                    img,
                    cx * cell_width,
                    cy * cell_height,
                    cell_width as nat,
                    cell_height as nat,
                ),
                cell_width * cell_height,
            ),
        )
    }
}

/// The sum of `count` luminance bytes is at most `255 * count`.
pub proof fn lemma_line_sum_bounds(img: PixelGrid, x0: int, y: int, count: nat)
    ensures
        0 <= line_sum(img, x0, y, count) <= 255 * count,
    decreases count,
{
    if count > 0 {
        lemma_line_sum_bounds(img, x0, y, (count - 1) as nat);
    }
}

/// The sum over a block is at most 255 for each of its pixels.
pub proof fn lemma_block_sum_bounds(img: PixelGrid, x0: int, y0: int, width: nat, height: nat)
    ensures
        0 <= block_sum(img, x0, y0, width, height) <= 255 * (width * height),
    decreases height,
{
    if height > 0 {
        lemma_block_sum_bounds(img, x0, y0, width, (height - 1) as nat);
        lemma_line_sum_bounds(img, x0, y0 + height - 1, width);
        assert(width * height == width * (height - 1) + width) by (nonlinear_arith);
    } else {
        assert(width * height == 0) by (nonlinear_arith)
            requires
                height == 0,
        ;
    }
}

/// A sum of at most 255 per pixel lands on a level of the ramp.
pub proof fn lemma_ramp_level_in_range(sum: int, area: int)
    requires
        0 < area,
        0 <= sum <= 255 * area,
    ensures
        0 <= ramp_level(sum, area) < RAMP_LEVELS,
{
    let numerator = sum * RAMP_LEVELS;
    let denominator = area * 256;
    assert(0 <= numerator && numerator < denominator * 10 && denominator > 0) by (nonlinear_arith)
        requires
            numerator == sum * 10,
            denominator == area * 256,
            0 < area,
            0 <= sum <= 255 * area,
    ;
    assert(0 <= numerator / denominator < 10) by (nonlinear_arith)
        requires
            0 <= numerator < denominator * 10,
            denominator > 0,
    ;
}

/// A block of uniform luminance sums to that luminance for each pixel.
pub proof fn lemma_uniform_block_sum(
    img: PixelGrid,
    x0: int,
    y0: int,
    width: nat,
    height: nat,
    value: u8,
)
    requires
        forall|dx: int, dy: int|
            0 <= dx < width && 0 <= dy < height ==> #[trigger] img.at(x0 + dx, y0 + dy) == value,
    ensures
        block_sum(img, x0, y0, width, height) == value * (width * height),
    decreases height,
{
    if height > 0 {
        lemma_uniform_block_sum(img, x0, y0, width, (height - 1) as nat, value);
        lemma_uniform_line_sum(img, x0, y0, height - 1, width, width, value);
        assert(value * (width * height) == value * (width * (height - 1)) + value * width)
            by (nonlinear_arith);
    } else {
        assert(value * (width * height) == 0) by (nonlinear_arith)
            requires
                height == 0,
        ;
    }
}

proof fn lemma_uniform_line_sum(
    img: PixelGrid,
    x0: int,
    y0: int,
    dy: int,
    width: nat,
    count: nat,
    value: u8,
)
    requires
        count <= width,
        forall|dx: int| 0 <= dx < width ==> #[trigger] img.at(x0 + dx, y0 + dy) == value,
    ensures
        line_sum(img, x0, y0 + dy, count) == value * count,
    decreases count,
{
    if count > 0 {
        let shorter = (count - 1) as nat;
        lemma_uniform_line_sum(img, x0, y0, dy, width, shorter, value);
        assert(img.at(x0 + shorter, y0 + dy) == value);
        assert(value * count == value * shorter + value) by (nonlinear_arith)
            requires
                shorter == count - 1,
        ;
    } else {
        assert(value * count == 0) by (nonlinear_arith)
            requires
                count == 0,
        ;
    }
}

/// The character that was found, or a blank where none was.
fn glyph_or_blank(found: Option<char>) -> (glyph: char)
    ensures
        glyph == (match found {
            Some(c) => c,
            None => ' ',
        }),
{
    match found {
        Some(c) => c,
        None => ' ',
    }
}

/// The braille glyph for a dot pattern.
pub fn braille(pattern: u8) -> (glyph: char)
    ensures
        glyph == braille_glyph(pattern as int),
{
    glyph_or_blank(scalar_to_char(BRAILLE_BASE + pattern as u32))
}

/// The glyph of the luminance ramp for `level`; levels past the end of the
/// ramp give its densest glyph.
pub fn ramp(level: u8) -> (glyph: char)
    ensures
        glyph == ramp_glyph(level as int),
{
    match level {
        0 => ' ',
        1 => '.',
        2 => ':',
        3 => '-',
        4 => '=',
        5 => '+',
        6 => '*',
        7 => '#',
        8 => '%',
        _ => '@',
    }
}

/// Bit of one dot of a braille pattern where `value` is lit.
fn dot_of(value: u8, bit: u8) -> (raised: u8)
    ensures
        raised == (if lit(value) {
            bit
        } else {
            0
        }),
{
    if value >= LIT_THRESHOLD {
        bit
    } else {
        0
    }
}

/// Dot pattern of the 2 by 4 block of pixels whose top-left pixel is
/// (`x0`, `y0`).
pub(crate) fn block_pattern(pixels: &PixelBuffer, x0: u32, y0: u32) -> (pattern: u8)
    requires
        x0 + BRAILLE_WIDTH <= pixels@.width,
        y0 + BRAILLE_HEIGHT <= pixels@.height,
    ensures
        pattern == braille_pattern(pixels@, x0 as int, y0 as int),
{
    proof {
        pixels.lemma_view_extent();
    }
    let left_0 = dot_of(pixels.sample(x0, y0), 0x01);
    let left_1 = dot_of(pixels.sample(x0, y0 + 1), 0x02);
    let left_2 = dot_of(pixels.sample(x0, y0 + 2), 0x04);
    let left_3 = dot_of(pixels.sample(x0, y0 + 3), 0x40);
    let right_0 = dot_of(pixels.sample(x0 + 1, y0), 0x08);
    let right_1 = dot_of(pixels.sample(x0 + 1, y0 + 1), 0x10);
    let right_2 = dot_of(pixels.sample(x0 + 1, y0 + 2), 0x20);
    let right_3 = dot_of(pixels.sample(x0 + 1, y0 + 3), 0x80);
    left_0 + left_1 + left_2 + left_3 + right_0 + right_1 + right_2 + right_3
}

/// Sum of the luminance of the block of `width` by `height` pixels whose
/// top-left pixel is (`x0`, `y0`).
pub(crate) fn block_total(pixels: &PixelBuffer, x0: u32, y0: u32, width: u32, height: u32) -> (total:
    u128)
    requires
        x0 + width <= pixels@.width,
        y0 + height <= pixels@.height,
    ensures
        total == block_sum(pixels@, x0 as int, y0 as int, width as nat, height as nat),
        total <= 255 * (width * height),
{
    proof {
        pixels.lemma_view_extent();
    }
    let mut total: u128 = 0;
    let mut dy: u32 = 0;
    while dy < height
        invariant
            dy <= height,
            pixels@.width <= u32::MAX,
            pixels@.height <= u32::MAX,
            x0 + width <= pixels@.width,
            y0 + height <= pixels@.height,
            total == block_sum(pixels@, x0 as int, y0 as int, width as nat, dy as nat),
        decreases height - dy,
    {
        let mut line: u128 = 0;
        let mut dx: u32 = 0;
        while dx < width
            invariant
                dx <= width,
                dy < height,
                pixels@.width <= u32::MAX,
                pixels@.height <= u32::MAX,
                x0 + width <= pixels@.width,
                y0 + height <= pixels@.height,
                line == line_sum(pixels@, x0 as int, y0 + dy, dx as nat),
                line <= 255 * dx,
            decreases width - dx,
        {
            let value = pixels.sample(x0 + dx, y0 + dy);
            line = line + value as u128;
            dx = dx + 1;
        }
        proof {
            lemma_block_sum_bounds(pixels@, x0 as int, y0 as int, width as nat, dy as nat);
            assert(0 <= width * dy <= 0xFFFF_FFFF * 0xFFFF_FFFF) by (nonlinear_arith)
                requires
                    0 <= width <= 0xFFFF_FFFF,
                    0 <= dy <= 0xFFFF_FFFF,
            ;
        }
        total = total + line;
        dy = dy + 1;
    }
    proof {
        lemma_block_sum_bounds(pixels@, x0 as int, y0 as int, width as nat, height as nat);
    }
    total
}

/// The glyph that stands for the block of pixels at column `cx`, line `cy`
/// of the cell grid.
pub(crate) fn block_glyph(
    pixels: &PixelBuffer,
    cx: u16,
    cy: u16,
    cell_width: u32,
    cell_height: u32,
) -> (glyph: char)
    requires
        cell_width > 0,
        cell_height > 0,
        (cx + 1) * cell_width <= pixels@.width,
        (cy + 1) * cell_height <= pixels@.height,
    ensures
        glyph == glyph_for(pixels@, cx as int, cy as int, cell_width, cell_height),
{
    proof {
        pixels.lemma_view_extent();
    }
    assert(cx * cell_width + cell_width == (cx + 1) * cell_width) by (nonlinear_arith);
    assert(cy * cell_height + cell_height == (cy + 1) * cell_height) by (nonlinear_arith);
    assert(0 <= cx * cell_width && 0 <= cy * cell_height) by (nonlinear_arith)
        requires
            cell_width > 0,
            cell_height > 0,
            cx >= 0,
            cy >= 0,
    ;
    let x0: u32 = cx as u32 * cell_width;
    let y0: u32 = cy as u32 * cell_height;
    if cell_width == BRAILLE_WIDTH && cell_height == BRAILLE_HEIGHT {
        braille(block_pattern(pixels, x0, y0))
    } else {
        let total = block_total(pixels, x0, y0, cell_width, cell_height);
        assert(0 < cell_width * cell_height <= 0xFFFF_FFFF * 0xFFFF_FFFF) by (nonlinear_arith)
            requires
                0 < cell_width <= 0xFFFF_FFFF,
                0 < cell_height <= 0xFFFF_FFFF,
        ;
        let area: u128 = cell_width as u128 * cell_height as u128;
        proof {
            lemma_ramp_level_in_range(total as int, area as int);
        }
        let level: u128 = (total * RAMP_LEVELS as u128) / (area * 256);
        ramp(level as u8)
    }
}

} // verus!
