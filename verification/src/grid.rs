//! The pixel grid: a fixed-shape, row-major buffer of colors with its
//! header metadata.

use vstd::prelude::*;

use crate::color::Color;
use crate::error::Error;

verus! {

/// The mathematical content of a [`Ppm`] grid: its declared dimensions, the
/// declared maximum channel value, and the pixel buffer as a sequence of
/// `(red, green, blue)` triples in row-major order (the pixel at column `x`
/// of row `y` stands at flat index `y * width + x`).
#[verifier::ext_equal]
pub struct GridView {
    pub width: usize,
    pub height: usize,
    pub color_depth: usize,
    pub pixels: Seq<(u8, u8, u8)>,
}

impl GridView {
    /// Well-formedness: the buffer length agrees with the declared shape,
    /// and the shape is small enough for flat indices to be computed.
    ///
    /// The constructor and the decoder establish this; every operation but
    /// the raw `set_width` / `set_height` metadata setters preserves it.
    pub open spec fn wf(self) -> bool {
        &&& self.pixels.len() == self.width * self.height
        &&& self.width * self.height <= usize::MAX
    }

    /// The flat row-major index of the position `(x, y)`.
    pub open spec fn flat_index(self, x: usize, y: usize) -> int {
        y * self.width + x
    }

    /// Whether `(x, y)` names a pixel that can be read or written: both
    /// coordinates lie inside the declared dimensions and the flat index
    /// lies inside the buffer. Under [`GridView::wf`] the last condition
    /// follows from the first two.
    pub open spec fn in_bounds(self, x: usize, y: usize) -> bool {
        &&& x < self.width
        &&& y < self.height
        &&& self.flat_index(x, y) < self.pixels.len()
    }
}

/// A rectangular image: width, height, the header-declared color depth, and
/// a row-major pixel buffer.
#[derive(Debug, Clone, PartialEq)]
pub struct Ppm {
    width: usize,
    height: usize,
    color_depth: usize,
    pixels: Vec<Color>,
}

impl View for Ppm {
    type V = GridView;

    closed spec fn view(&self) -> GridView {
        GridView {
            width: self.width,
            height: self.height,
            color_depth: self.color_depth,
            pixels: self.pixels@.map_values(|c: Color| c@),
        }
    }
}

impl Ppm {
    /// A grid of the given dimensions with every pixel black and the
    /// default color depth of 255.
    pub fn new(width: usize, height: usize) -> (p: Ppm)
        requires
            width * height <= usize::MAX,
        ensures
            p@.width == width,
            p@.height == height,
            p@.color_depth == 255,
            p@.pixels.len() == width * height,
            forall|i: int| 0 <= i < p@.pixels.len() ==> p@.pixels[i] == (0u8, 0u8, 0u8),
            p@.wf(),
    {
        let total: usize = width * height;
        let mut pixels: Vec<Color> = Vec::new();
        let mut i: usize = 0;
        while i < total
            invariant
                i <= total,
                pixels@.len() == i,
                forall|j: int| 0 <= j < i ==> pixels@[j]@ == (0u8, 0u8, 0u8),
            decreases total - i,
        {
            pixels.push(Color::new(0, 0, 0));
            i = i + 1;
        }
        let p = Ppm { width, height, color_depth: 255, pixels };
        assert forall|j: int| 0 <= j < p@.pixels.len() implies p@.pixels[j] == (0u8, 0u8, 0u8) by {
            assert(p@.pixels[j] == p.pixels@[j]@);
        }
        p
    }

    pub fn width(&self) -> (r: usize)
        ensures
            r == self@.width,
    {
        self.width
    }

    /// Overwrites the declared width without touching the pixel buffer;
    /// this can break [`GridView::wf`].
    pub fn set_width(&mut self, width: usize)
        ensures
            final(self)@ == (GridView { width, ..old(self)@ }),
    {
        self.width = width;
    }

    pub fn height(&self) -> (r: usize)
        ensures
            r == self@.height,
    {
        self.height
    }

    /// Overwrites the declared height without touching the pixel buffer;
    /// this can break [`GridView::wf`].
    pub fn set_height(&mut self, height: usize)
        ensures
            final(self)@ == (GridView { height, ..old(self)@ }),
    {
        self.height = height;
    }

    pub fn color_depth(&self) -> (r: usize)
        ensures
            r == self@.color_depth,
    {
        self.color_depth
    }

    pub fn set_color_depth(&mut self, color_depth: usize)
        ensures
            final(self)@ == (GridView { color_depth, ..old(self)@ }),
    {
        self.color_depth = color_depth;
    }

    /// The pixel buffer in row-major order.
    pub fn pixels(&self) -> (r: &[Color])
        ensures
            r@.len() == self@.pixels.len(),
            forall|i: int| 0 <= i < r@.len() ==> r@[i]@ == self@.pixels[i],
    {
        self.pixels.as_slice()
    }

    /// The row-major listing of the grid: for each flat index `i` the triple
    /// `(i % width, i / width, pixel)`. A grid whose declared width is zero
    /// has no row structure, so its listing is empty.
    pub fn iter_pixels(&self) -> (r: Vec<(usize, usize, Color)>)
        ensures
            self@.width > 0 ==> {
                &&& r@.len() == self@.pixels.len()
                &&& forall|i: int|
                    0 <= i < r@.len() ==> (#[trigger] r@[i]).0 == i % (self@.width as int)
                        && r@[i].1 == i / (self@.width as int) && (r@[i].2)@ == self@.pixels[i]
            },
            self@.width == 0 ==> r@.len() == 0,
    {
        let mut r: Vec<(usize, usize, Color)> = Vec::new();
        if self.width == 0 {
            return r;
        }
        let mut i: usize = 0;
        while i < self.pixels.len()
            invariant
                self.width > 0,
                i <= self.pixels.len(),
                r@.len() == i,
                forall|j: int|
                    0 <= j < i ==> (#[trigger] r@[j]).0 == j % (self.width as int) && r@[j].1 == j
                        / (self.width as int) && (r@[j].2)@ == self.pixels@[j]@,
            decreases self.pixels.len() - i,
        {
            r.push((i % self.width, i / self.width, self.pixels[i]));
            i = i + 1;
        }
        assert forall|i: int| 0 <= i < r@.len() implies (#[trigger] r@[i]).0 == i % (
        self@.width as int) && r@[i].1 == i / (self@.width as int) && (r@[i].2)@
            == self@.pixels[i] by {
            assert((r@[i].2)@ == self.pixels@[i]@);
        }
        r
    }

    /// Replaces the whole pixel buffer. The buffer must have exactly
    /// `width * height` entries; a mismatched length is rejected with
    /// [`Error::OutOfBounds`] and leaves the grid unchanged, so the
    /// length invariant of the grid is never silently broken.
    pub fn set_pixels(&mut self, pixels: &[Color]) -> (r: Result<(), Error>)
        ensures
            match r {
                Ok(()) => {
                    &&& pixels@.len() == old(self)@.width * old(self)@.height
                    &&& final(self)@.width == old(self)@.width
                    &&& final(self)@.height == old(self)@.height
                    &&& final(self)@.color_depth == old(self)@.color_depth
                    &&& final(self)@.pixels.len() == pixels@.len()
                    &&& forall|i: int|
                        0 <= i < pixels@.len() ==> final(self)@.pixels[i] == (
                        #[trigger] pixels@[i])@
                },
                Err(e) => {
                    &&& e == Error::OutOfBounds
                    &&& pixels@.len() != old(self)@.width * old(self)@.height
                    &&& final(self)@ == old(self)@
                },
            },
    {
        let given: usize = pixels.len();
        let matches_shape = match self.width.checked_mul(self.height) {
            Some(n) => n == given,
            None => false,
        };
        if matches_shape {
            let mut buffer: Vec<Color> = Vec::new();
            let mut i: usize = 0;
            while i < pixels.len()
                invariant
                    i <= pixels@.len(),
                    buffer@.len() == i,
                    forall|j: int| 0 <= j < i ==> buffer@[j] == #[trigger] pixels@[j],
                decreases pixels@.len() - i,
            {
                buffer.push(pixels[i]);
                i = i + 1;
            }
            self.pixels = buffer;
            Ok(())
        } else {
            Err(Error::OutOfBounds)
        }
    }

    /// The number of entries the pixel buffer actually holds.
    pub(crate) fn buffer_len(&self) -> (r: usize)
        ensures
            r == self@.pixels.len(),
    {
        self.pixels.len()
    }

    /// Reads the pixel at a flat index that is known to lie inside the
    /// buffer.
    pub(crate) fn read_flat(&self, idx: usize) -> (c: Color)
        requires
            idx < self@.pixels.len(),
        ensures
            c@ == self@.pixels[idx as int],
    {
        self.pixels[idx]
    }

    /// Overwrites the pixel at a flat index that is known to lie inside
    /// the buffer.
    pub(crate) fn write_flat(&mut self, idx: usize, color: Color)
        requires
            idx < old(self)@.pixels.len(),
        ensures
            final(self)@.width == old(self)@.width,
            final(self)@.height == old(self)@.height,
            final(self)@.color_depth == old(self)@.color_depth,
            final(self)@.pixels == old(self)@.pixels.update(idx as int, color@),
    {
        self.pixels.set(idx, color);
        proof {
            assert(self@.pixels =~= old(self)@.pixels.update(idx as int, color@));
        }
    }

    /// The pixel at `(x, y)`, or `None` when either coordinate lies outside
    /// the declared dimensions or the flat index lies outside the buffer.
    /// Absence is a normal outcome, not an error.
    pub fn pixel_at(&self, x: usize, y: usize) -> (r: Option<&Color>)
        ensures
            match r {
                Some(c) => self@.in_bounds(x, y) && c@ == self@.pixels[self@.flat_index(x, y)],
                None => !self@.in_bounds(x, y),
            },
    {
        let len: usize = self.pixels.len();
        if x >= self.width || y >= self.height {
            return None;
        }
        match y.checked_mul(self.width) {
            None => None,
            Some(base) => match base.checked_add(x) {
                None => None,
                Some(idx) => {
                    if idx < len {
                        proof {
                            assert(self@.pixels[idx as int] == self.pixels@[idx as int]@);
                        }
                        Some(&self.pixels[idx])
                    } else {
                        None
                    }
                },
            },
        }
    }

    /// Overwrites the pixel at `(x, y)`. Coordinates outside the grid are
    /// rejected with [`Error::OutOfBounds`] and leave the grid unchanged.
    pub fn set_pixel(&mut self, x: usize, y: usize, color: Color) -> (r: Result<(), Error>)
        ensures
            match r {
                Ok(()) => {
                    &&& old(self)@.in_bounds(x, y)
                    &&& final(self)@.width == old(self)@.width
                    &&& final(self)@.height == old(self)@.height
                    &&& final(self)@.color_depth == old(self)@.color_depth
                    &&& final(self)@.pixels == old(self)@.pixels.update(
                        old(self)@.flat_index(x, y),
                        color@,
                    )
                },
                Err(e) => {
                    &&& e == Error::OutOfBounds
                    &&& !old(self)@.in_bounds(x, y)
                    &&& final(self)@ == old(self)@
                },
            },
    {
        let len: usize = self.pixels.len();
        if x >= self.width || y >= self.height {
            return Err(Error::OutOfBounds);
        }
        match y.checked_mul(self.width) {
            None => Err(Error::OutOfBounds),
            Some(base) => match base.checked_add(x) {
                None => Err(Error::OutOfBounds),
                Some(idx) => {
                    if idx < len {
                        self.pixels.set(idx, color);
                        proof {
                            assert(self@.pixels =~= old(self)@.pixels.update(
                                old(self)@.flat_index(x, y),
                                color@,
                            ));
                        }
                        Ok(())
                    } else {
                        Err(Error::OutOfBounds)
                    }
                },
            },
        }
    }
}

} // verus!
