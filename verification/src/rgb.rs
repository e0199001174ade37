//! The 8-bit RGB raster that a rendering ends in.

use vstd::prelude::*;

verus! {

#[derive(Debug, Copy, Clone, PartialEq, Eq, Structural)]
pub struct ImageSize {
    pub width: usize,
    pub height: usize,
}

impl ImageSize {
    pub fn new(width: usize, height: usize) -> (size: Self)
        ensures
            size.width == width,
            size.height == height,
    {
        Self { width, height }
    }

    /// The number of pixels.
    pub open spec fn area(&self) -> int {
        self.width * self.height
    }
}

/// A RGB8 color.
#[derive(Debug, Copy, Clone, PartialEq, Eq, Structural)]
pub struct RGB8 {
    /// The red component of the color.
    pub red: u8,
    /// The green component of the color.
    pub green: u8,
    /// The blue component of the color.
    pub blue: u8,
}

/// The black pixel.
pub open spec fn black() -> RGB8 {
    RGB8 { red: 0, green: 0, blue: 0 }
}

/// A raster of `RGB8` pixels, stored row by row from the top.
pub struct RGBuffer {
    size: ImageSize,
    pixels: Vec<RGB8>,
}

/// The three channels of every pixel, one pixel after the other.
pub open spec fn channel_bytes(pixels: Seq<RGB8>) -> Seq<u8> {
    Seq::new(
        3 * pixels.len(),
        |i: int|
            if i % 3 == 0 {
                pixels[i / 3].red
            } else if i % 3 == 1 {
                pixels[i / 3].green
            } else {
                pixels[i / 3].blue
            },
    )
}

impl RGBuffer {
    pub closed spec fn size(&self) -> ImageSize {
        self.size
    }

    /// The pixels, row by row.
    pub closed spec fn pixels(&self) -> Seq<RGB8> {
        self.pixels@
    }

    /// There is one pixel for each position.
    pub open spec fn wf(&self) -> bool {
        self.pixels().len() == self.size().area()
    }

    /// A black raster.
    pub fn new(size: ImageSize) -> (buffer: RGBuffer)
        requires
            size.area() <= usize::MAX,
        ensures
            buffer.wf(),
            buffer.size() == size,
            forall|i: int| 0 <= i < size.area() ==> buffer.pixels()[i] == black(),
    {
        assert(size.width * size.height == size.area());
        let count = size.width * size.height;
        let mut pixels: Vec<RGB8> = Vec::new();
        let mut i: usize = 0;
        while i < count
            invariant
                i <= count,
                pixels.len() == i,
                forall|k: int| 0 <= k < i ==> pixels[k] == black(),
            decreases count - i,
        {
            pixels.push(RGB8 { red: 0, green: 0, blue: 0 });
            i += 1;
        }
        RGBuffer { size, pixels }
    }

    /// A raster of the given width over `pixels`, which must fill whole rows.
    pub fn from(data: (usize, Vec<RGB8>)) -> (buffer: RGBuffer)
        requires
            data.0 > 0,
            data.1.len() % data.0 == 0,
        ensures
            buffer.wf(),
            buffer.size().width == data.0,
            buffer.size().height == data.1.len() / data.0,
            buffer.pixels() == data.1@,
    {
        let (width, pixels) = data;
        let height = pixels.len() / width;
        assert(width * height == pixels.len()) by (nonlinear_arith)
            requires
                width > 0,
                height == pixels.len() / width,
                pixels.len() % width == 0,
        ;
        RGBuffer { size: ImageSize::new(width, height), pixels }
    }

    /// The pixel at index `y * width + x`, if the raster has that many.
    pub fn get(&self, x: usize, y: usize) -> (pixel: Option<&RGB8>)
        ensures
            pixel == if y * self.size().width + x < self.pixels().len() {
                Some(&self.pixels()[y * self.size().width + x])
            } else {
                None::<&RGB8>
            },
    {
        let len = self.pixels.len();
        let row = match y.checked_mul(self.size.width) {
            Some(row) => row,
            None => {
                return None;
            },
        };
        let index = match row.checked_add(x) {
            Some(index) => index,
            None => {
                return None;
            },
        };
        if index < len {
            Some(&self.pixels[index])
        } else {
            None
        }
    }

    /// Stores `rgb` at column `x` of row `y`.
    pub fn set(&mut self, x: usize, y: usize, rgb: &RGB8)
        requires
            old(self).wf(),
            x < old(self).size().width,
            y < old(self).size().height,
        ensures
            final(self).wf(),
            final(self).size() == old(self).size(),
            final(self).pixels() == old(self).pixels().update(
                y * old(self).size().width + x,
                *rgb,
            ),
    {
        let width = self.size.width;
        let height = self.size.height;
        let len = self.pixels.len();
        assert(y * width + x < width * height && y * width >= 0) by (nonlinear_arith)
            requires
                x < width,
                y < height,
        ;
        let index = y * width + x;
        self.pixels.set(index, *rgb);
    }

    /// The raster as bytes: red, green and blue of each pixel in turn, as an
    /// image encoder takes them.
    pub fn to_bytes(&self) -> (bytes: Vec<u8>)
        ensures
            bytes@ == channel_bytes(self.pixels()),
    {
        let mut bytes: Vec<u8> = Vec::new();
        let mut i: usize = 0;
        while i < self.pixels.len()
            invariant
                i <= self.pixels.len(),
                bytes@ == channel_bytes(self.pixels@.subrange(0, i as int)),
            decreases self.pixels.len() - i,
        {
            let pixel = self.pixels[i];
            bytes.push(pixel.red);
            bytes.push(pixel.green);
            bytes.push(pixel.blue);
            assert(bytes@ =~= channel_bytes(self.pixels@.subrange(0, i + 1)));
            i += 1;
        }
        assert(self.pixels@.subrange(0, self.pixels.len() as int) =~= self.pixels@);
        bytes
    }

    pub fn width(&self) -> (w: usize)
        ensures
            w == self.size().width,
    {
        self.size.width
    }

    pub fn height(&self) -> (h: usize)
        ensures
            h == self.size().height,
    {
        self.size.height
    }
}

} // verus!
