use crate::display::pixels::{addressable, PixelBuffer, PixelGrid};
use ratatui::style::Style;
use vstd::prelude::*;

verus! {

/// Width in pixels of the block that one terminal cell stands for.
pub const CELL_WIDTH: u32 = 2;

/// Height in pixels of the block that one terminal cell stands for.
pub const CELL_HEIGHT: u32 = 4;

/// Largest dither level that is handed to the dither stage: its threshold
/// matrix then has 256 by 256 entries. Larger levels count as this one.
pub const MAX_DITHER_LEVEL: u32 = 7;

/// Settings of a terminal display.
#[derive(Clone, Copy, Debug, PartialEq, Eq)]
pub struct TerminalDisplay {
    /// Level of dithering performed on image
    pub dither_level: u32,
    /// Style applied to rendered text
    pub style: Style,
}

/// Why a display could not be set up or resized.
#[derive(Clone, Copy, Debug, PartialEq, Eq, Structural)]
pub enum DisplayError {
    /// The size of the terminal could not be determined.
    TerminalQueryError,
    /// The surface would hold more pixels than fit in memory.
    SurfaceAllocationError,
}

impl DisplayError {
    /// The diagnostic that is shown to the user for the error.
    pub fn message(&self) -> (text: &'static str)
        ensures
            text@ == (match self {
                DisplayError::TerminalQueryError => "the size of the terminal could not be determined"@,
                DisplayError::SurfaceAllocationError => "the render surface does not fit in memory"@,
            }),
    {
        match self {
            DisplayError::TerminalQueryError => "the size of the terminal could not be determined",
            DisplayError::SurfaceAllocationError => "the render surface does not fit in memory",
        }
    }
}

/// Token by which the rendering side knows a surface.
#[derive(Clone, Copy, Debug, PartialEq, Eq, Structural)]
pub struct SurfaceHandle(pub u64);

/// How the surface came to be the target of its camera.
#[derive(Clone, Copy, Debug, PartialEq, Eq, Structural)]
pub enum CameraBinding {
    /// A camera was already there and was pointed at the surface.
    Retargeted,
    /// No camera was there: one was created for the surface.
    Inserted,
}

/// The mathematical content of a render surface.
pub struct SurfaceModel {
    /// Columns of the terminal the surface was sized for.
    pub cols: u16,
    /// Lines of the terminal the surface was sized for.
    pub rows: u16,
    /// The rendered image.
    pub pixels: PixelGrid,
    /// Token by which the rendering side knows the surface.
    pub handle: SurfaceHandle,
    /// How the surface is tied to its camera.
    pub camera: CameraBinding,
}

impl SurfaceModel {
    /// The image has `CELL_WIDTH` by `CELL_HEIGHT` pixels for every cell of
    /// the terminal, and one byte for every pixel.
    pub open spec fn well_formed(self) -> bool {
        &&& self.pixels.width == self.cols * CELL_WIDTH
        &&& self.pixels.height == self.rows * CELL_HEIGHT
        &&& self.pixels.well_formed()
    }

    /// A freshly allocated, all-black surface for a terminal of `cols` by
    /// `rows` cells.
    pub open spec fn blank(cols: u16, rows: u16, handle: SurfaceHandle, camera: CameraBinding)
        -> SurfaceModel {
        SurfaceModel {
            cols,
            rows,
            pixels: PixelGrid::zeroed((cols * CELL_WIDTH) as nat, (rows * CELL_HEIGHT) as nat),
            handle,
            camera,
        }
    }

    /// The surface after the terminal changed to `cols` by `rows` cells. With
    /// the size it already has the surface stays as it is; otherwise it is
    /// dropped and allocated anew under the same handle, and its camera is
    /// pointed at the new image.
    pub open spec fn resized(self, cols: u16, rows: u16) -> SurfaceModel {
        if self.cols == cols && self.rows == rows {
            self
        } else {
            SurfaceModel::blank(cols, rows, self.handle, CameraBinding::Retargeted)
        }
    }
}

/// Whether the surface for a terminal of `cols` by `rows` cells can be held
/// in memory on this machine.
pub open spec fn surface_fits(cols: u16, rows: u16) -> bool {
    addressable(cols * CELL_WIDTH, rows * CELL_HEIGHT)
}

/// How a surface is tied to the camera of its display: an existing camera is
/// pointed at the surface, a missing one is created.
pub open spec fn camera_binding(camera_present: bool) -> CameraBinding {
    if camera_present {
        CameraBinding::Retargeted
    } else {
        CameraBinding::Inserted
    }
}

/// What setting up a surface gives: no surface without the size of the
/// terminal, none that the machine cannot address, and otherwise an all-black
/// surface of `CELL_WIDTH` by `CELL_HEIGHT` pixels for every cell.
pub open spec fn initialized(
    terminal_size: Option<(u16, u16)>,
    handle: SurfaceHandle,
    camera_present: bool,
) -> Result<SurfaceModel, DisplayError> {
    match terminal_size {
        None => Err(DisplayError::TerminalQueryError),
        Some(size) => if surface_fits(size.0, size.1) {
            Ok(SurfaceModel::blank(size.0, size.1, handle, camera_binding(camera_present)))
        } else {
            Err(DisplayError::SurfaceAllocationError)
        },
    }
}

/// What a resize reports: `Ok(false)` for the size the surface already has,
/// `Ok(true)` for a new size, and an error for a new size whose image the
/// machine cannot address.
pub open spec fn resize_outcome(surface: SurfaceModel, cols: u16, rows: u16) -> Result<
    bool,
    DisplayError,
> {
    if surface.cols == cols && surface.rows == rows {
        Ok(false)
    } else if surface_fits(cols, rows) {
        Ok(true)
    } else {
        Err(DisplayError::SurfaceAllocationError)
    }
}

/// A surface that was set up for a terminal of `cols` by `rows` cells holds
/// exactly `cols * CELL_WIDTH` by `rows * CELL_HEIGHT` pixels, all black.
pub proof fn lemma_initialized_extent(
    cols: u16,
    rows: u16,
    handle: SurfaceHandle,
    camera_present: bool,
)
    requires
        surface_fits(cols, rows),
    ensures
        initialized(Some((cols, rows)), handle, camera_present) matches Ok(surface) && {
            &&& surface.cols == cols
            &&& surface.rows == rows
            &&& surface.pixels.width == cols * CELL_WIDTH
            &&& surface.pixels.height == rows * CELL_HEIGHT
            &&& surface.pixels.data.len() == (cols * CELL_WIDTH) * (rows * CELL_HEIGHT)
            &&& surface.well_formed()
            &&& surface.handle == handle
        },
{
}

/// Resizing twice to the same size is resizing once.
pub proof fn lemma_resize_idempotent(surface: SurfaceModel, cols: u16, rows: u16)
    ensures
        surface.resized(cols, rows).resized(cols, rows) == surface.resized(cols, rows),
{
}

/// Resizing keeps the handle, and gives a well-formed surface of the new
/// size.
pub proof fn lemma_resize_keeps_handle(surface: SurfaceModel, cols: u16, rows: u16)
    requires
        surface.well_formed(),
    ensures
        surface.resized(cols, rows).handle == surface.handle,
        surface.resized(cols, rows).cols == cols,
        surface.resized(cols, rows).rows == rows,
        surface.resized(cols, rows).well_formed(),
{
}

/// Pixel extent of the surface that backs a terminal of `cols` by `rows`
/// cells.
pub fn pixel_size(cols: u16, rows: u16) -> (size: (u32, u32))
    ensures
        size.0 == cols * CELL_WIDTH,
        size.1 == rows * CELL_HEIGHT,
{
    (cols as u32 * CELL_WIDTH, rows as u32 * CELL_HEIGHT)
}

/// The off-screen pixel buffer that the scene is rendered into before it is
/// converted to terminal cells.
#[derive(Debug, PartialEq, Eq)]
pub struct RenderSurface {
    cols: u16,
    rows: u16,
    pixels: PixelBuffer,
    handle: SurfaceHandle,
    camera: CameraBinding,
}

impl View for RenderSurface {
    type V = SurfaceModel;

    closed spec fn view(&self) -> SurfaceModel {
        SurfaceModel {
            cols: self.cols,
            rows: self.rows,
            pixels: self.pixels@,
            handle: self.handle,
            camera: self.camera,
        }
    }
}

impl TerminalDisplay {
    /// Settings with the given dither level and style.
    pub fn new(dither_level: u32, style: Style) -> (display: TerminalDisplay)
        ensures
            display == (TerminalDisplay { dither_level, style }),
    {
        TerminalDisplay { dither_level, style }
    }

    /// The dither level that the dither stage is run with: the level of the
    /// settings, or the largest level where that is exceeded.
    pub fn effective_dither_level(&self) -> (level: u32)
        ensures
            level == (if self.dither_level <= MAX_DITHER_LEVEL {
                self.dither_level
            } else {
                MAX_DITHER_LEVEL
            }),
    {
        if self.dither_level <= MAX_DITHER_LEVEL {
            self.dither_level
        } else {
            MAX_DITHER_LEVEL
        }
    }

    /// Replaces the settings and provisions the surface anew: its image
    /// turns black, its size, handle and camera stay.
    pub fn reconfigure(&mut self, surface: &mut RenderSurface, dither_level: u32, style: Style)
        ensures
            *final(self) == (TerminalDisplay { dither_level, style }),
            final(surface)@ == SurfaceModel::blank(
                old(surface)@.cols,
                old(surface)@.rows,
                old(surface)@.handle,
                old(surface)@.camera,
            ),
            final(surface)@.well_formed(),
    {
        self.dither_level = dither_level;
        self.style = style;
        surface.reprovision();
    }
}

impl RenderSurface {
    #[verifier::type_invariant]
    spec fn sized_for_terminal(&self) -> bool {
        &&& self.pixels@.width == self.cols * CELL_WIDTH
        &&& self.pixels@.height == self.rows * CELL_HEIGHT
        &&& self.pixels@.well_formed()
    }

    /// Sets up the surface of a display. `terminal_size` is the size of the
    /// terminal in columns and lines, or `None` where it could not be
    /// determined; `handle` is the token of the image on the rendering side;
    /// `camera_present` tells whether the display already has a camera.
    pub fn initialize(
        terminal_size: Option<(u16, u16)>,
        handle: SurfaceHandle,
        camera_present: bool,
    ) -> (surface: Result<RenderSurface, DisplayError>)
        ensures
            match surface {
                Ok(ready) => initialized(terminal_size, handle, camera_present) == Ok::<
                    SurfaceModel,
                    DisplayError,
                >(ready@) && ready@.well_formed(),
                Err(error) => initialized(terminal_size, handle, camera_present) == Err::<
                    SurfaceModel,
                    DisplayError,
                >(error),
            },
    {
        match terminal_size {
            None => Err(DisplayError::TerminalQueryError),
            Some(size) => {
                let extent = pixel_size(size.0, size.1);
                match PixelBuffer::new(extent.0, extent.1) {
                    None => Err(DisplayError::SurfaceAllocationError),
                    Some(pixels) => {
                        let camera = if camera_present {
                            CameraBinding::Retargeted
                        } else {
                            CameraBinding::Inserted
                        };
                        Ok(RenderSurface { cols: size.0, rows: size.1, pixels, handle, camera })
                    },
                }
            },
        }
    }

    /// Adapts the surface to a terminal of `new_cols` by `new_rows` cells.
    /// With the size the surface already has nothing happens and `Ok(false)`
    /// is returned. Otherwise the old image is dropped and an all-black one
    /// of the new size takes its place under the same handle: `Ok(true)`
    /// tells the caller to point the camera at it. Where the new image cannot
    /// be addressed the surface stays as it was.
    pub fn on_resize(&mut self, new_cols: u16, new_rows: u16) -> (outcome: Result<
        bool,
        DisplayError,
    >)
        ensures
            outcome == resize_outcome(old(self)@, new_cols, new_rows),
            outcome is Ok ==> final(self)@ == old(self)@.resized(new_cols, new_rows),
            outcome is Err ==> final(self)@ == old(self)@,
            final(self)@.well_formed(),
    {
        proof {
            use_type_invariant(&*self);
        }
        if self.cols == new_cols && self.rows == new_rows {
            Ok(false)
        } else {
            let extent = pixel_size(new_cols, new_rows);
            match PixelBuffer::new(extent.0, extent.1) {
                None => Err(DisplayError::SurfaceAllocationError),
                Some(pixels) => {
                    let handle = self.handle;
                    *self = RenderSurface {
                        cols: new_cols,
                        rows: new_rows,
                        pixels,
                        handle,
                        camera: CameraBinding::Retargeted,
                    };
                    Ok(true)
                },
            }
        }
    }

    /// Turns the image black, as a surface that was just allocated.
    pub fn reprovision(&mut self)
        ensures
            final(self)@ == SurfaceModel::blank(
                old(self)@.cols,
                old(self)@.rows,
                old(self)@.handle,
                old(self)@.camera,
            ),
            final(self)@.well_formed(),
    {
        proof {
            use_type_invariant(&*self);
        }
        self.pixels = self.pixels.blank_copy();
    }

    /// Takes in the image that the rendering side produced this cycle.
    /// Returns whether `data` holds one byte for every pixel of the surface;
    /// where it does not the surface keeps the image it had.
    pub fn load(&mut self, data: Vec<u8>) -> (loaded: bool)
        ensures
            loaded == (data@.len() == old(self)@.pixels.width * old(self)@.pixels.height),
            loaded ==> final(self)@ == (SurfaceModel {
                pixels: PixelGrid { data: data@, ..old(self)@.pixels },
                ..old(self)@
            }),
            !loaded ==> final(self)@ == old(self)@,
            final(self)@.well_formed(),
    {
        proof {
            use_type_invariant(&*self);
        }
        match PixelBuffer::from_raw(self.pixels.width(), self.pixels.height(), data) {
            Some(pixels) => {
                self.pixels = pixels;
                true
            },
            None => false,
        }
    }

    /// Columns of the terminal the surface is sized for.
    pub fn cols(&self) -> (cols: u16)
        ensures
            cols == self@.cols,
    {
        self.cols
    }

    /// Lines of the terminal the surface is sized for.
    pub fn rows(&self) -> (rows: u16)
        ensures
            rows == self@.rows,
    {
        self.rows
    }

    /// Token by which the rendering side knows the surface.
    pub fn handle(&self) -> (handle: SurfaceHandle)
        ensures
            handle == self@.handle,
    {
        self.handle
    }

    /// How the surface is tied to its camera.
    pub fn camera(&self) -> (camera: CameraBinding)
        ensures
            camera == self@.camera,
    {
        self.camera
    }

    /// The image that was rendered last.
    pub fn pixels(&self) -> (pixels: &PixelBuffer)
        ensures
            pixels@ == self@.pixels,
            self@.well_formed(),
    {
        proof {
            use_type_invariant(self);
        }
        &self.pixels
    }
}

} // verus!
