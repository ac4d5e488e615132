use ratatui::style::{Color, Style};
use terminal_display::display::frame::{Cell, Region, TerminalFrameBuffer};

fn cell(glyph: char) -> Cell {
    Cell { glyph, style: Style::default() }
}

#[test]
fn new_frame_is_filled() {
    let frame = TerminalFrameBuffer::new(3, 2, cell('.'));
    assert_eq!(frame.cols(), 3);
    assert_eq!(frame.rows(), 2);
    assert!(!frame.is_empty());
    for y in 0..2 {
        for x in 0..3 {
            assert_eq!(frame.get(x, y), Some(cell('.')));
        }
    }
    assert_eq!(frame.get(3, 0), None);
    assert_eq!(frame.get(0, 2), None);
}

#[test]
fn frame_without_cells() {
    let frame = TerminalFrameBuffer::new(0, 0, cell('.'));
    assert!(frame.is_empty());
    assert_eq!(frame.get(0, 0), None);
    assert_eq!(frame.area(), Region::new(0, 0, 0, 0));
    let lines_only = TerminalFrameBuffer::new(0, 7, cell('.'));
    assert!(lines_only.is_empty());
    assert_eq!(lines_only.rows(), 7);
    assert_eq!(lines_only.get(0, 3), None);
}

#[test]
fn set_replaces_one_cell() {
    let mut frame = TerminalFrameBuffer::new(3, 3, cell(' '));
    assert!(frame.set(2, 1, cell('x')));
    for y in 0..3 {
        for x in 0..3 {
            let expected = if (x, y) == (2, 1) { cell('x') } else { cell(' ') };
            assert_eq!(frame.get(x, y), Some(expected));
        }
    }
}

#[test]
fn set_outside_the_frame_changes_nothing() {
    let mut frame = TerminalFrameBuffer::new(2, 2, cell(' '));
    let before = frame.clone();
    assert!(!frame.set(2, 0, cell('x')));
    assert!(!frame.set(0, 2, cell('x')));
    assert!(!frame.set(u16::MAX, u16::MAX, cell('x')));
    assert_eq!(frame, before);
}

#[test]
fn clone_keeps_every_cell() {
    let mut frame = TerminalFrameBuffer::new(4, 2, cell('a'));
    frame.set(3, 1, Cell { glyph: 'b', style: Style::default().bg(Color::Blue) });
    let copy = frame.clone();
    assert_eq!(copy, frame);
    assert_eq!(copy.get(3, 1), frame.get(3, 1));
}

#[test]
fn region_contains_its_cells_only() {
    let region = Region::new(2, 3, 4, 2);
    assert!(region.contains(2, 3));
    assert!(region.contains(5, 4));
    assert!(!region.contains(6, 4));
    assert!(!region.contains(5, 5));
    assert!(!region.contains(1, 3));
    assert!(!region.contains(2, 2));
    assert!(!region.is_empty());
    assert!(Region::new(2, 3, 0, 2).is_empty());
    assert!(Region::new(2, 3, 4, 0).is_empty());
}

#[test]
fn region_at_the_far_corner_does_not_wrap() {
    let region = Region::new(u16::MAX, u16::MAX, u16::MAX, u16::MAX);
    assert!(region.contains(u16::MAX, u16::MAX));
    assert!(!region.contains(0, 0));
    assert!(!region.contains(u16::MAX - 1, u16::MAX));
}

#[test]
fn intersection_of_overlapping_regions() {
    let a = Region::new(0, 0, 10, 5);
    let b = Region::new(6, 3, 10, 10);
    assert_eq!(a.intersection(&b), Region::new(6, 3, 4, 2));
    assert_eq!(b.intersection(&a), Region::new(6, 3, 4, 2));
    assert_eq!(a.intersection(&a), a);
}

#[test]
fn intersection_of_disjoint_regions_is_empty() {
    let a = Region::new(0, 0, 4, 4);
    let b = Region::new(4, 0, 4, 4);
    let common = a.intersection(&b);
    assert!(common.is_empty());
    assert_eq!(common, Region::new(4, 0, 0, 4));
    let far = Region::new(10, 10, 2, 2);
    assert_eq!(a.intersection(&far), Region::new(10, 10, 0, 0));
}

#[test]
fn clip_cuts_a_region_to_the_frame() {
    let frame = TerminalFrameBuffer::new(10, 5, cell(' '));
    assert_eq!(frame.clip(Region::new(8, 3, 5, 5)), Region::new(8, 3, 2, 2));
    assert_eq!(frame.clip(Region::new(1, 1, 2, 2)), Region::new(1, 1, 2, 2));
    assert!(frame.clip(Region::new(10, 0, 3, 3)).is_empty());
}

#[test]
fn paint_overwrites_region_only() {
    let mut frame = TerminalFrameBuffer::new(4, 3, cell('s'));
    let mut patch = TerminalFrameBuffer::new(2, 2, cell('w'));
    let red = Cell { glyph: 'r', style: Style::default().fg(Color::Red) };
    assert!(patch.set(1, 1, red));
    frame.paint(Region::new(1, 1, 2, 2), &patch, cell(' '));
    for y in 0..3u16 {
        for x in 0..4u16 {
            let inside = (1..3).contains(&x) && (1..3).contains(&y);
            let expected = if !inside {
                cell('s')
            } else if x == 2 && y == 2 {
                red
            } else {
                cell('w')
            };
            assert_eq!(frame.get(x, y), Some(expected));
        }
    }
}

#[test]
fn paint_fills_where_the_patch_is_too_small() {
    let mut frame = TerminalFrameBuffer::new(4, 4, cell('s'));
    let patch = TerminalFrameBuffer::new(1, 1, cell('w'));
    frame.paint(Region::new(0, 0, 3, 2), &patch, cell('_'));
    for y in 0..4u16 {
        for x in 0..4u16 {
            let expected = if x == 0 && y == 0 {
                cell('w')
            } else if x < 3 && y < 2 {
                cell('_')
            } else {
                cell('s')
            };
            assert_eq!(frame.get(x, y), Some(expected));
        }
    }
}

#[test]
fn paint_beyond_the_frame_is_cut_off() {
    let mut frame = TerminalFrameBuffer::new(3, 3, cell('s'));
    let patch = TerminalFrameBuffer::new(5, 5, cell('w'));
    frame.paint(Region::new(2, 2, 5, 5), &patch, cell('_'));
    for y in 0..3u16 {
        for x in 0..3u16 {
            let expected = if (x, y) == (2, 2) { cell('w') } else { cell('s') };
            assert_eq!(frame.get(x, y), Some(expected));
        }
    }
    let before = frame.clone();
    frame.paint(Region::new(3, 0, 2, 2), &patch, cell('_'));
    assert_eq!(frame, before);
}

#[test]
fn paint_does_not_depend_on_what_was_there() {
    let patch = TerminalFrameBuffer::new(2, 1, cell('w'));
    let region = Region::new(1, 0, 2, 1);
    let mut first = TerminalFrameBuffer::new(4, 1, cell('a'));
    let mut second = TerminalFrameBuffer::new(4, 1, cell('b'));
    first.paint(region, &patch, cell(' '));
    second.paint(region, &patch, cell(' '));
    for x in 1..3u16 {
        assert_eq!(first.get(x, 0), second.get(x, 0));
        assert_eq!(first.get(x, 0), Some(cell('w')));
    }
    assert_eq!(first.get(0, 0), Some(cell('a')));
    assert_eq!(second.get(0, 0), Some(cell('b')));
}

#[test]
fn fill_writes_one_cell_over_a_region() {
    let mut frame = TerminalFrameBuffer::new(3, 2, cell('s'));
    frame.fill(Region::new(1, 0, 5, 1), cell('#'));
    for y in 0..2u16 {
        for x in 0..3u16 {
            let expected = if x >= 1 && y == 0 { cell('#') } else { cell('s') };
            assert_eq!(frame.get(x, y), Some(expected));
        }
    }
}
