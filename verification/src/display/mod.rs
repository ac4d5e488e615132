/// Row-major index arithmetic shared by the pixel and cell grids.
pub mod layout;

/// Terminal cells, screen regions and the frame buffer they are composed in.
pub mod frame;

/// Single-channel luminance images.
pub mod pixels;

/// Choice of the glyph that stands for a block of pixels.
pub mod glyphs;

/// The per-frame conversion of a quantized image into terminal cells.
pub mod systems;

/// The display's settings and the off-screen surface the scene is rendered to.
pub mod components;
