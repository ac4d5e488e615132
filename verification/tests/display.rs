use ratatui::style::{Color, Style};
use terminal_display::display::components::{
    pixel_size, CameraBinding, DisplayError, RenderSurface, SurfaceHandle, TerminalDisplay,
    CELL_HEIGHT, CELL_WIDTH, MAX_DITHER_LEVEL,
};
use terminal_display::display::pixels::{pixel_count, PixelBuffer};
use terminal_display::TerminalDisplayPlugin;

fn surface(cols: u16, rows: u16) -> RenderSurface {
    match RenderSurface::initialize(Some((cols, rows)), SurfaceHandle(7), false) {
        Ok(surface) => surface,
        Err(error) => panic!("no surface: {:?}", error),
    }
}

#[test]
fn cell_blocks_are_two_by_four() {
    assert_eq!(CELL_WIDTH, 2);
    assert_eq!(CELL_HEIGHT, 4);
}

#[test]
fn pixel_size_is_cells_times_block() {
    assert_eq!(pixel_size(10, 5), (20, 20));
    assert_eq!(pixel_size(1, 1), (2, 4));
    assert_eq!(pixel_size(80, 24), (160, 96));
    assert_eq!(pixel_size(0, 0), (0, 0));
    assert_eq!(pixel_size(u16::MAX, u16::MAX), (131_070, 262_140));
}

#[test]
fn pixel_size_for_a_range_of_terminals() {
    for cols in [1u16, 2, 3, 79, 80, 200, 1000] {
        for rows in [1u16, 2, 24, 25, 50, 999] {
            assert_eq!(pixel_size(cols, rows), (cols as u32 * 2, rows as u32 * 4));
        }
    }
}

#[test]
fn initialize_allocates_a_black_surface() {
    let surface = surface(10, 5);
    assert_eq!(surface.cols(), 10);
    assert_eq!(surface.rows(), 5);
    assert_eq!(surface.handle(), SurfaceHandle(7));
    assert_eq!(surface.pixels().width(), 20);
    assert_eq!(surface.pixels().height(), 20);
    assert_eq!(surface.pixels().as_bytes(), &vec![0u8; 400]);
}

#[test]
fn initialize_without_terminal_size_fails() {
    let outcome = RenderSurface::initialize(None, SurfaceHandle(1), true);
    assert_eq!(outcome.err(), Some(DisplayError::TerminalQueryError));
}

#[test]
fn initialize_on_an_empty_terminal() {
    let surface = surface(0, 0);
    assert_eq!(surface.pixels().width(), 0);
    assert_eq!(surface.pixels().height(), 0);
    assert!(surface.pixels().as_bytes().is_empty());
}

#[test]
fn initialize_binds_the_camera() {
    let with_camera = RenderSurface::initialize(Some((2, 2)), SurfaceHandle(1), true);
    assert_eq!(with_camera.map(|s| s.camera()), Ok(CameraBinding::Retargeted));
    let without = RenderSurface::initialize(Some((2, 2)), SurfaceHandle(1), false);
    assert_eq!(without.map(|s| s.camera()), Ok(CameraBinding::Inserted));
}

#[test]
fn resize_to_the_same_size_is_a_no_op() {
    let mut surface = surface(10, 5);
    assert!(surface.load(vec![9u8; 400]));
    let before = surface.pixels().clone();
    assert_eq!(surface.on_resize(10, 5), Ok(false));
    assert_eq!(surface.pixels(), &before);
    assert_eq!(surface.camera(), CameraBinding::Inserted);
    assert_eq!(surface.handle(), SurfaceHandle(7));
}

#[test]
fn resize_reallocates_under_the_same_handle() {
    let mut surface = surface(10, 5);
    assert!(surface.load(vec![9u8; 400]));
    assert_eq!(surface.on_resize(4, 3), Ok(true));
    assert_eq!(surface.cols(), 4);
    assert_eq!(surface.rows(), 3);
    assert_eq!(surface.pixels().width(), 8);
    assert_eq!(surface.pixels().height(), 12);
    assert_eq!(surface.pixels().as_bytes(), &vec![0u8; 96]);
    assert_eq!(surface.handle(), SurfaceHandle(7));
    assert_eq!(surface.camera(), CameraBinding::Retargeted);
}

#[test]
fn resize_twice_is_resize_once() {
    let mut once = surface(10, 5);
    let mut twice = surface(10, 5);
    assert_eq!(once.on_resize(30, 12), Ok(true));
    assert_eq!(twice.on_resize(30, 12), Ok(true));
    assert_eq!(twice.on_resize(30, 12), Ok(false));
    assert_eq!(once, twice);
    assert_eq!(once.handle(), twice.handle());
}

#[test]
fn load_takes_an_image_of_the_right_size_only() {
    let mut surface = surface(1, 2);
    assert!(surface.load(vec![1, 2, 3, 4, 5, 6, 7, 8, 9, 10, 11, 12, 13, 14, 15, 16]));
    let loaded = surface.pixels().clone();
    assert_eq!(loaded.get(1, 0), Some(2));
    assert_eq!(loaded.get(0, 7), Some(15));
    assert!(!surface.load(vec![1, 2, 3]));
    assert!(!surface.load(Vec::new()));
    assert!(!surface.load(vec![0; 17]));
    assert!(!surface.load(vec![0; 15]));
    assert_eq!(surface.pixels(), &loaded);
}

#[test]
fn reconfigure_replaces_settings_and_blanks_the_surface() {
    let mut display = TerminalDisplay::new(0, Style::default());
    let mut surface = surface(2, 1);
    assert!(surface.load(vec![200; 16]));
    let style = Style::default().fg(Color::Green);
    display.reconfigure(&mut surface, 3, style);
    assert_eq!(display, TerminalDisplay { dither_level: 3, style });
    assert_eq!(surface.pixels().as_bytes(), &vec![0u8; 16]);
    assert_eq!(surface.cols(), 2);
    assert_eq!(surface.rows(), 1);
    assert_eq!(surface.handle(), SurfaceHandle(7));
    assert_eq!(surface.camera(), CameraBinding::Inserted);
}

#[test]
fn pixel_count_refuses_what_memory_cannot_hold() {
    assert_eq!(pixel_count(20, 20), Some(400));
    assert_eq!(pixel_count(0, 1000), Some(0));
    assert_eq!(pixel_count(u32::MAX, u32::MAX), None);
    assert!(PixelBuffer::new(u32::MAX, u32::MAX).is_none());
}

#[test]
fn pixel_buffer_from_raw_checks_the_length() {
    assert!(PixelBuffer::from_raw(2, 2, vec![0; 3]).is_none());
    assert!(PixelBuffer::from_raw(2, 2, vec![0; 5]).is_none());
    assert!(PixelBuffer::from_raw(0, 5, vec![0; 1]).is_none());
    let buffer = PixelBuffer::from_raw(3, 2, vec![10, 11, 12, 20, 21, 22]);
    let buffer = match buffer {
        Some(buffer) => buffer,
        None => panic!("six bytes make a 3 by 2 image"),
    };
    assert_eq!(buffer.width(), 3);
    assert_eq!(buffer.height(), 2);
    assert_eq!(buffer.get(0, 0), Some(10));
    assert_eq!(buffer.get(2, 0), Some(12));
    assert_eq!(buffer.get(0, 1), Some(20));
    assert_eq!(buffer.get(2, 1), Some(22));
    assert_eq!(buffer.get(3, 0), None);
    assert_eq!(buffer.get(0, 2), None);
}

#[test]
fn pixel_buffer_clear_and_blank_copy() {
    let mut buffer = match PixelBuffer::from_raw(2, 2, vec![1, 2, 3, 4]) {
        Some(buffer) => buffer,
        None => panic!("four bytes make a 2 by 2 image"),
    };
    let blank = buffer.blank_copy();
    assert_eq!(blank.as_bytes(), &vec![0u8; 4]);
    assert_eq!(buffer.as_bytes(), &vec![1, 2, 3, 4]);
    assert!(buffer.load(vec![5, 6, 7, 8]));
    assert!(!buffer.load(vec![5, 6, 7]));
    assert_eq!(buffer.as_bytes(), &vec![5, 6, 7, 8]);
    buffer.clear();
    assert_eq!(buffer, blank);
}

#[test]
fn plugin_logs_to_debug_log_by_default() {
    assert_eq!(TerminalDisplayPlugin::default().log_path, "debug.log");
}

#[test]
fn dither_level_is_clamped_not_refused() {
    let style = Style::default();
    assert_eq!(MAX_DITHER_LEVEL, 7);
    assert_eq!(TerminalDisplay::new(0, style).effective_dither_level(), 0);
    assert_eq!(TerminalDisplay::new(3, style).effective_dither_level(), 3);
    assert_eq!(TerminalDisplay::new(7, style).effective_dither_level(), 7);
    assert_eq!(TerminalDisplay::new(8, style).effective_dither_level(), 7);
    assert_eq!(TerminalDisplay::new(u32::MAX, style).effective_dither_level(), 7);
    assert_eq!(TerminalDisplay::new(u32::MAX, style).dither_level, u32::MAX);
}

#[test]
fn errors_have_their_diagnostics() {
    assert_eq!(
        DisplayError::TerminalQueryError.message(),
        "the size of the terminal could not be determined"
    );
    assert_eq!(
        DisplayError::SurfaceAllocationError.message(),
        "the render surface does not fit in memory"
    );
}
