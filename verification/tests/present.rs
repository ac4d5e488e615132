use ratatui::style::{Color, Modifier, Style};
use terminal_display::display::components::{RenderSurface, SurfaceHandle, TerminalDisplay};
use terminal_display::display::frame::Cell;
use terminal_display::display::glyphs::{braille, ramp};
use terminal_display::display::pixels::PixelBuffer;
use terminal_display::display::systems::{present, present_surface};

fn image(width: u32, height: u32, data: Vec<u8>) -> PixelBuffer {
    match PixelBuffer::from_raw(width, height, data) {
        Some(pixels) => pixels,
        None => panic!("data does not fit the extent"),
    }
}

#[test]
fn braille_glyphs_start_at_the_blank_pattern() {
    assert_eq!(braille(0x00), '\u{2800}');
    assert_eq!(braille(0x01), '\u{2801}');
    assert_eq!(braille(0x40), '\u{2840}');
    assert_eq!(braille(0xA5), '\u{28A5}');
    assert_eq!(braille(0xFF), '\u{28FF}');
}

#[test]
fn ramp_runs_from_blank_to_dense() {
    let glyphs: Vec<char> = (0u8..10).map(ramp).collect();
    assert_eq!(glyphs, vec![' ', '.', ':', '-', '=', '+', '*', '#', '%', '@']);
    assert_eq!(ramp(10), '@');
    assert_eq!(ramp(255), '@');
}

#[test]
fn mid_gray_on_ten_by_five_is_uniform() {
    let style = Style::default().fg(Color::White).add_modifier(Modifier::BOLD);
    let display = TerminalDisplay::new(0, style);
    let mut surface = match RenderSurface::initialize(Some((10, 5)), SurfaceHandle(1), false) {
        Ok(surface) => surface,
        Err(error) => panic!("no surface: {:?}", error),
    };
    assert_eq!(surface.pixels().width(), 20);
    assert_eq!(surface.pixels().height(), 20);
    assert!(surface.load(vec![128u8; 400]));
    let frame = present_surface(&display, &surface);
    assert_eq!(frame.cols(), 10);
    assert_eq!(frame.rows(), 5);
    let mut cells = 0;
    for y in 0..5 {
        for x in 0..10 {
            assert_eq!(frame.get(x, y), Some(Cell { glyph: '\u{28FF}', style }));
            assert_eq!(frame.get(x, y), frame.get(0, 0));
            cells += 1;
        }
    }
    assert_eq!(cells, 50);
}

#[test]
fn each_dot_has_its_bit() {
    let bits: [(u32, u32, u32); 8] = [
        (0, 0, 0x01),
        (0, 1, 0x02),
        (0, 2, 0x04),
        (0, 3, 0x40),
        (1, 0, 0x08),
        (1, 1, 0x10),
        (1, 2, 0x20),
        (1, 3, 0x80),
    ];
    for (dx, dy, bit) in bits {
        let mut data = vec![0u8; 8];
        data[(dy * 2 + dx) as usize] = 255;
        let frame = present(&image(2, 4, data), 2, 4, Style::default());
        let expected = char::from_u32(0x2800 + bit);
        assert_eq!(frame.get(0, 0).map(|cell| cell.glyph), expected);
    }
}

#[test]
fn pixels_are_lit_from_the_threshold_on() {
    let dark = present(&image(2, 4, vec![127; 8]), 2, 4, Style::default());
    assert_eq!(dark.get(0, 0).map(|cell| cell.glyph), Some('\u{2800}'));
    let lit = present(&image(2, 4, vec![128; 8]), 2, 4, Style::default());
    assert_eq!(lit.get(0, 0).map(|cell| cell.glyph), Some('\u{28FF}'));
}

#[test]
fn blocks_map_to_their_own_cells() {
    // 4 by 8 pixels: four cells. Only the top-right block is lit, in its
    // left column.
    let mut data = vec![0u8; 32];
    for line in 0..4 {
        data[line * 4 + 2] = 200;
    }
    let frame = present(&image(4, 8, data), 2, 4, Style::default());
    assert_eq!(frame.cols(), 2);
    assert_eq!(frame.rows(), 2);
    assert_eq!(frame.get(0, 0).map(|cell| cell.glyph), Some('\u{2800}'));
    assert_eq!(frame.get(1, 0).map(|cell| cell.glyph), Some('\u{2847}'));
    assert_eq!(frame.get(0, 1).map(|cell| cell.glyph), Some('\u{2800}'));
    assert_eq!(frame.get(1, 1).map(|cell| cell.glyph), Some('\u{2800}'));
}

#[test]
fn other_blocks_use_the_ramp_of_the_mean() {
    let style = Style::default();
    // One pixel per cell: level = value * 10 / 256.
    let frame = present(&image(4, 1, vec![0, 25, 26, 255]), 1, 1, style);
    let glyphs: Vec<Option<char>> = (0..4).map(|x| frame.get(x, 0).map(|c| c.glyph)).collect();
    assert_eq!(glyphs, vec![Some(' '), Some(' '), Some('.'), Some('@')]);
    // 2 by 2 blocks: sum 0 + 100 + 200 + 212 = 512, level = 5120 / 1024 = 5.
    let frame = present(&image(2, 2, vec![0, 100, 200, 212]), 2, 2, style);
    assert_eq!(frame.cols(), 1);
    assert_eq!(frame.rows(), 1);
    assert_eq!(frame.get(0, 0), Some(Cell { glyph: '+', style }));
    // sum 511 stays one level below.
    let frame = present(&image(2, 2, vec![0, 100, 200, 211]), 2, 2, style);
    assert_eq!(frame.get(0, 0), Some(Cell { glyph: '=', style }));
}

#[test]
fn mid_gray_on_the_ramp() {
    let frame = present(&image(6, 3, vec![128; 18]), 3, 3, Style::default());
    assert_eq!(frame.cols(), 2);
    assert_eq!(frame.rows(), 1);
    assert_eq!(frame.get(0, 0).map(|c| c.glyph), Some('+'));
    assert_eq!(frame.get(1, 0).map(|c| c.glyph), Some('+'));
}

#[test]
fn empty_inputs_give_empty_frames() {
    let style = Style::default();
    assert!(present(&image(0, 0, Vec::new()), 2, 4, style).is_empty());
    assert!(present(&image(0, 8, Vec::new()), 2, 4, style).is_empty());
    assert!(present(&image(8, 0, Vec::new()), 2, 4, style).is_empty());
    assert!(present(&image(4, 4, vec![255; 16]), 0, 4, style).is_empty());
    assert!(present(&image(4, 4, vec![255; 16]), 2, 0, style).is_empty());
    assert!(present(&image(4, 4, vec![255; 16]), 0, 0, style).is_empty());
    // A block larger than the image leaves no whole block.
    assert!(present(&image(1, 3, vec![255; 3]), 2, 4, style).is_empty());
    assert!(present(&image(4, 4, vec![255; 16]), u32::MAX, u32::MAX, style).is_empty());
}

#[test]
fn pixels_past_the_last_whole_block_are_not_shown() {
    let frame = present(&image(5, 9, vec![255; 45]), 2, 4, Style::default());
    assert_eq!(frame.cols(), 2);
    assert_eq!(frame.rows(), 2);
    for y in 0..2 {
        for x in 0..2 {
            assert_eq!(frame.get(x, y).map(|c| c.glyph), Some('\u{28FF}'));
        }
    }
}

#[test]
fn frames_are_capped_at_terminal_coordinates() {
    let frame = present(&image(70_000, 1, vec![255; 70_000]), 1, 1, Style::default());
    assert_eq!(frame.cols(), u16::MAX);
    assert_eq!(frame.rows(), 1);
    assert_eq!(frame.get(u16::MAX - 1, 0).map(|c| c.glyph), Some('@'));
}

#[test]
fn present_is_a_function_of_its_arguments() {
    let data: Vec<u8> = (0..64u32).map(|i| (i * 37 % 256) as u8).collect();
    let style = Style::default().bg(Color::Black);
    let first = present(&image(8, 8, data.clone()), 2, 4, style);
    let second = present(&image(8, 8, data), 2, 4, style);
    assert_eq!(first, second);
}

#[test]
fn style_is_applied_to_every_cell() {
    let style = Style::default().fg(Color::Rgb(1, 2, 3));
    let data: Vec<u8> = (0..64u32).map(|i| (i * 5) as u8).collect();
    let frame = present(&image(8, 8, data), 2, 4, style);
    for y in 0..frame.rows() {
        for x in 0..frame.cols() {
            assert_eq!(frame.get(x, y).map(|c| c.style), Some(style));
        }
    }
}
