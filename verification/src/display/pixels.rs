use crate::display::layout::{flat_index, lemma_flat_index_in_range};
use vstd::prelude::*;

verus! {

/// The mathematical content of a pixel buffer: a single-channel image with
/// one luminance byte per pixel, stored line after line.
pub struct PixelGrid {
    /// Number of pixels in a line.
    pub width: nat,
    /// Number of lines.
    pub height: nat,
    /// Luminance of every pixel, row-major.
    pub data: Seq<u8>,
}

impl PixelGrid {
    /// There is exactly one byte for every pixel.
    pub open spec fn well_formed(self) -> bool {
        self.data.len() == self.width * self.height
    }

    /// Whether column `x` of line `y` is a pixel of the image.
    pub open spec fn in_bounds(self, x: int, y: int) -> bool {
        0 <= x < self.width && 0 <= y < self.height
    }

    /// Luminance of the pixel at column `x` of line `y`.
    pub open spec fn at(self, x: int, y: int) -> u8
        recommends
            self.in_bounds(x, y),
    {
        self.data[flat_index(x, y, self.width as int)]
    }

    /// The all-black image of the given extent.
    pub open spec fn zeroed(width: nat, height: nat) -> PixelGrid {
        PixelGrid { width, height, data: Seq::new(width * height, |i: int| 0u8) }
    }
}

/// A single-channel 8-bit luminance image held in memory.
#[derive(Debug, PartialEq, Eq)]
pub struct PixelBuffer {
    width: u32,
    height: u32,
    data: Vec<u8>,
}

impl View for PixelBuffer {
    type V = PixelGrid;

    closed spec fn view(&self) -> PixelGrid {
        PixelGrid { width: self.width as nat, height: self.height as nat, data: self.data@ }
    }
}

impl Clone for PixelBuffer {
    fn clone(&self) -> (copy: Self)
        ensures
            copy@ == self@,
    {
        proof {
            use_type_invariant(self);
        }
        let data = self.data.clone();
        assert(data@ =~= self.data@);
        PixelBuffer { width: self.width, height: self.height, data }
    }
}

/// Whether an image of `width` by `height` pixels can be held in memory: a
/// buffer holds at most `isize::MAX` bytes.
pub open spec fn addressable(width: int, height: int) -> bool {
    width * height <= isize::MAX
}

/// Number of pixels of a `width` by `height` image, or `None` where an image
/// of that extent cannot be held in memory.
pub fn pixel_count(width: u32, height: u32) -> (count: Option<usize>)
    ensures
        count == (if addressable(width as int, height as int) {
            Some((width * height) as usize)
        } else {
            None
        }),
{
    assert(0 <= width * height <= 0xFFFF_FFFE_0000_0001) by (nonlinear_arith)
        requires
            0 <= width <= 0xFFFF_FFFF,
            0 <= height <= 0xFFFF_FFFF,
    ;
    let count: u64 = width as u64 * height as u64;
    if count <= isize::MAX as u64 {
        Some(count as usize)
    } else {
        None
    }
}

impl PixelBuffer {
    #[verifier::type_invariant]
    spec fn storage_matches_extent(&self) -> bool {
        self.data@.len() == self.width * self.height
    }

    /// The extents of every image are 32-bit numbers.
    pub proof fn lemma_view_extent(self)
        ensures
            self@.width <= u32::MAX,
            self@.height <= u32::MAX,
    {
    }

    /// All-black image of the given extent. `None` exactly where an image of
    /// that extent cannot be held in memory.
    pub fn new(width: u32, height: u32) -> (buffer: Option<PixelBuffer>)
        ensures
            buffer is Some <==> addressable(width as int, height as int),
            buffer matches Some(pixels) ==> pixels@ == PixelGrid::zeroed(
                width as nat,
                height as nat,
            ) && pixels@.well_formed(),
    {
        match pixel_count(width, height) {
            Some(count) => {
                let data: Vec<u8> = vec![0u8; count];
                assert(data@ =~= Seq::new((width * height) as nat, |i: int| 0u8));
                Some(PixelBuffer { width, height, data })
            },
            None => None,
        }
    }

    /// Image of the given extent over the luminance bytes `data`, row-major.
    /// `None` exactly where `data` does not hold one byte per pixel.
    pub fn from_raw(width: u32, height: u32, data: Vec<u8>) -> (buffer: Option<PixelBuffer>)
        ensures
            buffer is Some <==> data@.len() == width * height,
            buffer matches Some(pixels) ==> pixels@ == (PixelGrid {
                width: width as nat,
                height: height as nat,
                data: data@,
            }) && pixels@.well_formed(),
    {
        assert(0 <= width * height <= 0xFFFF_FFFE_0000_0001) by (nonlinear_arith)
            requires
                0 <= width <= 0xFFFF_FFFF,
                0 <= height <= 0xFFFF_FFFF,
        ;
        let count: u64 = width as u64 * height as u64;
        if data.len() as u64 == count {
            Some(PixelBuffer { width, height, data })
        } else {
            None
        }
    }

    /// Number of pixels in a line.
    pub fn width(&self) -> (width: u32)
        ensures
            width == self@.width,
    {
        self.width
    }

    /// Number of lines.
    pub fn height(&self) -> (height: u32)
        ensures
            height == self@.height,
    {
        self.height
    }

    /// The luminance bytes, row-major.
    pub fn as_bytes(&self) -> (bytes: &Vec<u8>)
        ensures
            bytes@ == self@.data,
            self@.well_formed(),
    {
        proof {
            use_type_invariant(self);
        }
        &self.data
    }

    /// Luminance of the pixel at column `x` of line `y`, if the image has one
    /// there.
    pub fn get(&self, x: u32, y: u32) -> (value: Option<u8>)
        ensures
            value == (if self@.in_bounds(x as int, y as int) {
                Some(self@.at(x as int, y as int))
            } else {
                None
            }),
    {
        proof {
            use_type_invariant(self);
        }
        let total = self.data.len();
        if x < self.width && y < self.height {
            proof {
                lemma_flat_index_in_range(
                    x as int,
                    y as int,
                    self.width as int,
                    self.height as int,
                );
                assert(0 <= y * self.width <= flat_index(x as int, y as int, self.width as int));
                assert(flat_index(x as int, y as int, self.width as int) < total);
            }
            let index: usize = y as usize * self.width as usize + x as usize;
            Some(self.data[index])
        } else {
            None
        }
    }

    /// Luminance of the pixel at column `x` of line `y` of an image that has
    /// one there.
    pub(crate) fn sample(&self, x: u32, y: u32) -> (value: u8)
        requires
            self@.in_bounds(x as int, y as int),
        ensures
            value == self@.at(x as int, y as int),
    {
        match self.get(x, y) {
            Some(value) => value,
            None => 0,
        }
    }

    /// An all-black image of the same extent.
    pub fn blank_copy(&self) -> (blank: PixelBuffer)
        ensures
            blank@ == PixelGrid::zeroed(self@.width, self@.height),
            blank@.well_formed(),
    {
        proof {
            use_type_invariant(self);
        }
        let count = self.data.len();
        let data: Vec<u8> = vec![0u8; count];
        assert(data@ =~= Seq::new((self.width * self.height) as nat, |i: int| 0u8));
        PixelBuffer { width: self.width, height: self.height, data }
    }

    /// Turns every pixel black, keeping the extent.
    pub fn clear(&mut self)
        ensures
            final(self)@ == PixelGrid::zeroed(old(self)@.width, old(self)@.height),
            final(self)@.well_formed(),
    {
        proof {
            use_type_invariant(&*self);
        }
        let count = self.data.len();
        let data: Vec<u8> = vec![0u8; count];
        assert(data@ =~= Seq::new((self.width * self.height) as nat, |i: int| 0u8));
        self.data = data;
    }

    /// Replaces the content of the image by `data`, keeping its extent.
    /// Returns whether `data` holds one byte per pixel; where it does not the
    /// image is left as it was.
    pub fn load(&mut self, data: Vec<u8>) -> (loaded: bool)
        ensures
            loaded == (data@.len() == old(self)@.width * old(self)@.height),
            loaded ==> final(self)@ == (PixelGrid { data: data@, ..old(self)@ }),
            !loaded ==> final(self)@ == old(self)@,
            final(self)@.well_formed(),
    {
        proof {
            use_type_invariant(&*self);
        }
        if data.len() == self.data.len() {
            self.data = data;
            true
        } else {
            false
        }
    }
}

} // verus!
