//! Accumulation of samples into pixels, for a whole image and for one tile
//! of it, and the tone-mapping operators that a scene may name.
//!
//! The buffers are generic in the sample `S` that a pixel holds (a weighted
//! sum of colors, say). How two samples are added, how a sample is weighed
//! for a pixel under a filter and how a pixel is resolved to 8 bits comes
//! in through closures; the buffers decide which pixels a deposit reaches.

use vstd::prelude::*;
use crate::rgb::{ImageSize, RGBuffer, RGB8};
use crate::tags::is_word;
use crate::tile::Tile;

verus! {

/// The tone-mapping operators.
#[derive(Clone, Copy, Debug, PartialEq, Eq, Structural)]
pub enum TMOType {
    Linear,
    Gamma,
    Reinhard,
}

impl TMOType {
    /// The operator that a tag names: `linear`, `gamma`, `reinhard`.
    pub open spec fn tagged(tag: Seq<char>) -> Option<TMOType> {
        if tag == "linear"@ {
            Some(TMOType::Linear)
        } else if tag == "gamma"@ {
            Some(TMOType::Gamma)
        } else if tag == "reinhard"@ {
            Some(TMOType::Reinhard)
        } else {
            None
        }
    }

    /// The operator that the tag names, or `None` for an unknown tag.
    pub fn from_tag(tag: &str) -> (r: Option<TMOType>)
        ensures
            r == TMOType::tagged(tag@),
    {
        if is_word(tag, "linear") {
            Some(TMOType::Linear)
        } else if is_word(tag, "gamma") {
            Some(TMOType::Gamma)
        } else if is_word(tag, "reinhard") {
            Some(TMOType::Reinhard)
        } else {
            None
        }
    }
}

/// The place of pixel `(x, y)` in a row-major buffer of the given width.
pub open spec fn pixel_index(x: int, y: int, width: int) -> int {
    y * width + x
}

/// Pixels inside a `width` by `height` raster have their place inside the
/// buffer, and different pixels have different places.
pub proof fn lemma_pixel_index(x: int, y: int, width: int, height: int)
    requires
        0 <= x < width,
        0 <= y < height,
    ensures
        0 <= pixel_index(x, y, width) < width * height,
        forall|x2: int, y2: int|
            0 <= x2 < width && 0 <= y2 && (x2 != x || y2 != y) ==> #[trigger] pixel_index(
                x2,
                y2,
                width,
            ) != pixel_index(x, y, width),
{
    assert(0 <= y * width + x < width * height) by (nonlinear_arith)
        requires
            0 <= x < width,
            0 <= y < height,
    ;
    assert forall|x2: int, y2: int|
        0 <= x2 < width && 0 <= y2 && (x2 != x || y2 != y) implies #[trigger] pixel_index(
        x2,
        y2,
        width,
    ) != pixel_index(x, y, width) by {
        assert(y2 * width + x2 != y * width + x) by (nonlinear_arith)
            requires
                0 <= x2 < width,
                0 <= x < width,
                0 <= y2,
                0 <= y,
                x2 != x || y2 != y,
        ;
    }
}

/// The start of a stretch that begins at `a`, widened by `padding` and cut
/// off at 0.
pub open spec fn padded_start(a: int, padding: int) -> int {
    if a - padding > 0 {
        a - padding
    } else {
        0
    }
}

/// The end of a stretch that ends at `b`, widened by `padding` and cut off
/// at `limit`.
pub open spec fn padded_end(b: int, padding: int, limit: int) -> int {
    if b + padding < limit {
        b + padding
    } else {
        limit
    }
}

/// `v` cut to the range from `lo` to `hi`.
pub open spec fn clamp(v: int, lo: int, hi: int) -> int {
    if v < lo {
        lo
    } else if v > hi {
        hi
    } else {
        v
    }
}

/// The samples of a whole image, one for each pixel, row by row.
pub struct AccumlationBuffer<S> {
    size: ImageSize,
    buffer: Vec<S>,
}

/// The samples of one tile and of the margin around it that a filter
/// reaches: the pixels `[left, left + width) x [top, top + height)` of the
/// image, row by row.
pub struct AccumlationTileBuffer<S> {
    tile: Tile,
    left: usize,
    top: usize,
    width: usize,
    height: usize,
    buffer: Vec<S>,
    filtered: bool,
}

impl<S: Copy> AccumlationTileBuffer<S> {
    pub closed spec fn tile(&self) -> Tile {
        self.tile
    }

    /// The leftmost column of the image that the buffer covers.
    pub closed spec fn left(&self) -> int {
        self.left as int
    }

    /// The topmost row of the image that the buffer covers.
    pub closed spec fn top(&self) -> int {
        self.top as int
    }

    pub closed spec fn width(&self) -> int {
        self.width as int
    }

    pub closed spec fn height(&self) -> int {
        self.height as int
    }

    /// The samples, row by row.
    pub closed spec fn samples(&self) -> Seq<S> {
        self.buffer@
    }

    /// Deposits are spread by a filter.
    pub closed spec fn filtered(&self) -> bool {
        self.filtered
    }

    /// There is one sample for each pixel that the buffer covers.
    pub open spec fn wf(&self) -> bool {
        &&& self.samples().len() == self.width() * self.height()
        &&& self.left() + self.width() <= usize::MAX
        &&& self.top() + self.height() <= usize::MAX
    }

    /// The buffer covers the pixel `(x, y)` of the image.
    pub open spec fn covers(&self, x: int, y: int) -> bool {
        self.left() <= x < self.left() + self.width() && self.top() <= y < self.top()
            + self.height()
    }

    /// The sample of the pixel `(x, y)` of the image.
    pub open spec fn sample_at(&self, x: int, y: int) -> S {
        self.samples()[pixel_index(x - self.left(), y - self.top(), self.width())]
    }

    /// A buffer for `tile`, every sample `empty`. Without a filter it covers
    /// the tile. With a filter it covers the tile and `padding` pixels more
    /// on each side, as far as they lie in an image of `max_width` by
    /// `max_height` pixels.
    pub fn new(
        tile: Tile,
        filter_padding: Option<usize>,
        max_width: usize,
        max_height: usize,
        empty: S,
    ) -> (buffer: Self)
        requires
            tile.x1 <= tile.x2,
            tile.y1 <= tile.y2,
            filter_padding matches Some(padding) ==> padded_start(tile.x1 as int, padding as int)
                <= max_width && padded_start(tile.y1 as int, padding as int) <= max_height,
            match filter_padding {
                Some(padding) => (padded_end(tile.x2 as int, padding as int, max_width as int)
                    - padded_start(tile.x1 as int, padding as int)) * (padded_end(
                    tile.y2 as int,
                    padding as int,
                    max_height as int,
                ) - padded_start(tile.y1 as int, padding as int)) <= usize::MAX,
                None => (tile.x2 - tile.x1) * (tile.y2 - tile.y1) <= usize::MAX,
            },
        ensures
            buffer.wf(),
            buffer.tile() == tile,
            buffer.filtered() == filter_padding.is_some(),
            match filter_padding {
                Some(padding) => {
                    &&& buffer.left() == padded_start(tile.x1 as int, padding as int)
                    &&& buffer.top() == padded_start(tile.y1 as int, padding as int)
                    &&& buffer.left() + buffer.width() == padded_end(
                        tile.x2 as int,
                        padding as int,
                        max_width as int,
                    )
                    &&& buffer.top() + buffer.height() == padded_end(
                        tile.y2 as int,
                        padding as int,
                        max_height as int,
                    )
                },
                None => {
                    &&& buffer.left() == tile.x1
                    &&& buffer.top() == tile.y1
                    &&& buffer.width() == tile.x2 - tile.x1
                    &&& buffer.height() == tile.y2 - tile.y1
                },
            },
            forall|i: int| 0 <= i < buffer.samples().len() ==> buffer.samples()[i] == empty,
    {
        let (left, right, top, bottom) = match filter_padding {
            Some(padding) => {
                let left = tile.x1.saturating_sub(padding);
                let right = tile.x2.saturating_add(padding).min(max_width);
                let top = tile.y1.saturating_sub(padding);
                let bottom = tile.y2.saturating_add(padding).min(max_height);
                (left, right, top, bottom)
            },
            None => (tile.x1, tile.x2, tile.y1, tile.y2),
        };
        let width = right - left;
        let height = bottom - top;
        let count = width * height;
        let mut buffer: Vec<S> = Vec::new();
        let mut i: usize = 0;
        while i < count
            invariant
                i <= count,
                buffer.len() == i,
                forall|k: int| 0 <= k < i ==> buffer[k] == empty,
            decreases count - i,
        {
            buffer.push(empty);
            i += 1;
        }
        Self { tile, left, top, width, height, buffer, filtered: filter_padding.is_some() }
    }

    /// The sample of the pixel `(x, y)` of the image, if the buffer covers it.
    pub fn get(&self, x: usize, y: usize) -> (sample: Option<S>)
        requires
            self.wf(),
        ensures
            sample == if self.covers(x as int, y as int) {
                Some(self.sample_at(x as int, y as int))
            } else {
                None
            },
    {
        if x < self.left || y < self.top || x - self.left >= self.width || y - self.top
            >= self.height {
            return None;
        }
        proof {
            lemma_pixel_index(x - self.left, y - self.top, self.width as int, self.height as int);
        }
        let len = self.buffer.len();
        Some(self.buffer[(y - self.top) * self.width + (x - self.left)])
    }

    /// Adds `sample` to the pixel `(x, y)` of the image.
    fn deposit<A: Fn(S, S) -> S>(&mut self, x: usize, y: usize, sample: S, add_fn: &A)
        requires
            old(self).wf(),
            old(self).covers(x as int, y as int),
            call_requires(*add_fn, (old(self).sample_at(x as int, y as int), sample)),
        ensures
            final(self).wf(),
            final(self).tile() == old(self).tile(),
            final(self).left() == old(self).left(),
            final(self).top() == old(self).top(),
            final(self).width() == old(self).width(),
            final(self).height() == old(self).height(),
            final(self).filtered() == old(self).filtered(),
            call_ensures(
                *add_fn,
                (old(self).sample_at(x as int, y as int), sample),
                final(self).sample_at(x as int, y as int),
            ),
            forall|x2: int, y2: int|
                old(self).covers(x2, y2) && (x2 != x || y2 != y)
                    ==> #[trigger] final(self).sample_at(x2, y2) == old(self).sample_at(x2, y2),
    {
        proof {
            lemma_pixel_index(x - self.left, y - self.top, self.width as int, self.height as int);
            assert forall|x2: int, y2: int| self.covers(x2, y2) implies 0 <= #[trigger] pixel_index(
                x2 - self.left,
                y2 - self.top,
                self.width as int,
            ) < self.buffer@.len() by {
                lemma_pixel_index(
                    x2 - self.left,
                    y2 - self.top,
                    self.width as int,
                    self.height as int,
                );
            }
        }
        let len = self.buffer.len();
        let index = (y - self.top) * self.width + (x - self.left);
        let sum = add_fn(self.buffer[index], sample);
        self.buffer.set(index, sum);
    }

    /// Deposits a sample. Without a filter `value` is added to the pixel
    /// `(ix, iy)`. With a filter the deposit goes to the pixels of the
    /// footprint `[x_lo, x_hi) x [y_lo, y_hi)` that the buffer covers, row
    /// by row: `weigh_fn` gives the weighted sample for a pixel, or `None`
    /// where the pixel gets nothing, and `add_fn` adds it to what is there.
    pub fn add<W, A>(
        &mut self,
        ix: usize,
        iy: usize,
        footprint: (i64, i64, i64, i64),
        value: S,
        weigh_fn: W,
        add_fn: A,
    ) where W: Fn(usize, usize) -> Option<S>, A: Fn(S, S) -> S
        requires
            old(self).wf(),
            !old(self).filtered() ==> old(self).covers(ix as int, iy as int),
            forall|px: usize, py: usize| call_requires(weigh_fn, (px, py)),
            forall|a: S, b: S| call_requires(add_fn, (a, b)),
        ensures
            final(self).wf(),
            final(self).tile() == old(self).tile(),
            final(self).left() == old(self).left(),
            final(self).top() == old(self).top(),
            final(self).width() == old(self).width(),
            final(self).height() == old(self).height(),
            final(self).filtered() == old(self).filtered(),
            !old(self).filtered() ==> call_ensures(
                add_fn,
                (old(self).sample_at(ix as int, iy as int), value),
                final(self).sample_at(ix as int, iy as int),
            ),
            forall|x: int, y: int|
                old(self).covers(x, y) ==> if old(self).filtered() {
                    if footprint.0 <= x < footprint.1 && footprint.2 <= y < footprint.3 {
                        weighed(
                            weigh_fn,
                            add_fn,
                            x as usize,
                            y as usize,
                            old(self).sample_at(x, y),
                            #[trigger] final(self).sample_at(x, y),
                        )
                    } else {
                        final(self).sample_at(x, y) == old(self).sample_at(x, y)
                    }
                } else {
                    x != ix || y != iy ==> final(self).sample_at(x, y) == old(self).sample_at(x, y)
                },
    {
        if !self.filtered {
            self.deposit(ix, iy, value, &add_fn);
            return ;
        }
        let x_min = clamp_to(footprint.0, self.left, self.left + self.width);
        let x_max = clamp_to(footprint.1, self.left, self.left + self.width);
        let y_min = clamp_to(footprint.2, self.top, self.top + self.height);
        let y_max = clamp_to(footprint.3, self.top, self.top + self.height);
        let mut py: usize = y_min;
        while py < y_max
            invariant
                self.wf(),
                self.tile() == old(self).tile(),
                self.left() == old(self).left(),
                self.top() == old(self).top(),
                self.width() == old(self).width(),
                self.height() == old(self).height(),
                self.filtered() == old(self).filtered(),
                self.filtered(),
                x_min == clamp(footprint.0 as int, self.left(), self.left() + self.width()),
                x_max == clamp(footprint.1 as int, self.left(), self.left() + self.width()),
                y_min == clamp(footprint.2 as int, self.top(), self.top() + self.height()),
                y_max == clamp(footprint.3 as int, self.top(), self.top() + self.height()),
                y_min <= py,
                py <= y_max || py == y_min,
                forall|px: usize, py: usize| call_requires(weigh_fn, (px, py)),
                forall|a: S, b: S| call_requires(add_fn, (a, b)),
                forall|x: int, y: int|
                    old(self).covers(x, y) ==> if x_min <= x < x_max && y_min <= y < py {
                        weighed(
                            weigh_fn,
                            add_fn,
                            x as usize,
                            y as usize,
                            old(self).sample_at(x, y),
                            #[trigger] self.sample_at(x, y),
                        )
                    } else {
                        self.sample_at(x, y) == old(self).sample_at(x, y)
                    },
            decreases y_max - py,
        {
            let mut px: usize = x_min;
            while px < x_max
                invariant
                    self.wf(),
                    self.tile() == old(self).tile(),
                    self.left() == old(self).left(),
                    self.top() == old(self).top(),
                    self.width() == old(self).width(),
                    self.height() == old(self).height(),
                    self.filtered() == old(self).filtered(),
                    x_min == clamp(footprint.0 as int, self.left(), self.left() + self.width()),
                    x_max == clamp(footprint.1 as int, self.left(), self.left() + self.width()),
                    y_min == clamp(footprint.2 as int, self.top(), self.top() + self.height()),
                    y_max == clamp(footprint.3 as int, self.top(), self.top() + self.height()),
                    y_min <= py < y_max,
                    x_min <= px,
                    px <= x_max || px == x_min,
                    forall|px: usize, py: usize| call_requires(weigh_fn, (px, py)),
                    forall|a: S, b: S| call_requires(add_fn, (a, b)),
                    forall|x: int, y: int|
                        old(self).covers(x, y) ==> if x_min <= x < x_max && (y_min <= y < py || (y
                            == py && x < px)) {
                            weighed(
                                weigh_fn,
                                add_fn,
                                x as usize,
                                y as usize,
                                old(self).sample_at(x, y),
                                #[trigger] self.sample_at(x, y),
                            )
                        } else {
                            self.sample_at(x, y) == old(self).sample_at(x, y)
                        },
                decreases x_max - px,
            {
                let ghost before = self.sample_at(px as int, py as int);
                let weighted = weigh_fn(px, py);
                if let Some(sample) = weighted {
                    self.deposit(px, py, sample, &add_fn);
                }
                assert(weighed(
                    weigh_fn,
                    add_fn,
                    px,
                    py,
                    before,
                    self.sample_at(px as int, py as int),
                ));
                px += 1;
            }
            py += 1;
        }
    }
}

/// What a filtered deposit does to one pixel of its footprint: nothing where
/// `weigh_fn` gives no sample, else it adds the sample that `weigh_fn` gives.
pub open spec fn weighed<S, W: Fn(usize, usize) -> Option<S>, A: Fn(S, S) -> S>(
    weigh_fn: W,
    add_fn: A,
    x: usize,
    y: usize,
    before: S,
    after: S,
) -> bool {
    ||| call_ensures(weigh_fn, (x, y), None::<S>) && after == before
    ||| exists|sample: S| #[trigger]
        call_ensures(weigh_fn, (x, y), Some(sample)) && call_ensures(
            add_fn,
            (before, sample),
            after,
        )
}

/// `v` cut to the range from `lo` to `hi`.
fn clamp_to(v: i64, lo: usize, hi: usize) -> (r: usize)
    requires
        lo <= hi,
    ensures
        r == clamp(v as int, lo as int, hi as int),
{
    if v < 0 {
        lo
    } else if (v as u64) < (lo as u64) {
        lo
    } else if (v as u64) > (hi as u64) {
        hi
    } else {
        v as usize
    }
}

impl<S: Copy> AccumlationBuffer<S> {
    pub closed spec fn size(&self) -> ImageSize {
        self.size
    }

    /// The samples, row by row.
    pub closed spec fn samples(&self) -> Seq<S> {
        self.buffer@
    }

    /// There is one sample for each pixel of the image.
    pub open spec fn wf(&self) -> bool {
        self.samples().len() == self.size().area()
    }

    /// A buffer for an image of the given size, every sample `empty`.
    pub fn new(size: ImageSize, empty: S) -> (buffer: Self)
        requires
            size.area() <= usize::MAX,
        ensures
            buffer.wf(),
            buffer.size() == size,
            forall|i: int| 0 <= i < buffer.samples().len() ==> buffer.samples()[i] == empty,
    {
        assert(size.width * size.height == size.area());
        let count = size.width * size.height;
        let mut buffer: Vec<S> = Vec::new();
        let mut i: usize = 0;
        while i < count
            invariant
                i <= count,
                buffer.len() == i,
                forall|k: int| 0 <= k < i ==> buffer[k] == empty,
            decreases count - i,
        {
            buffer.push(empty);
            i += 1;
        }
        Self { size, buffer }
    }

    /// Adds `sample` to the pixel at index `y * width + x`.
    pub fn add<A: Fn(S, S) -> S>(&mut self, x: usize, y: usize, sample: S, add_fn: A)
        requires
            pixel_index(x as int, y as int, old(self).size().width as int) < old(self).samples().len(),
            forall|a: S, b: S| call_requires(add_fn, (a, b)),
        ensures
            final(self).size() == old(self).size(),
            final(self).samples().len() == old(self).samples().len(),
            call_ensures(
                add_fn,
                (
                    old(self).samples()[pixel_index(
                        x as int,
                        y as int,
                        old(self).size().width as int,
                    )],
                    sample,
                ),
                final(self).samples()[pixel_index(x as int, y as int, old(self).size().width as int)],
            ),
            forall|i: int|
                0 <= i < old(self).samples().len() && i != pixel_index(
                    x as int,
                    y as int,
                    old(self).size().width as int,
                ) ==> final(self).samples()[i] == old(self).samples()[i],
    {
        let len = self.buffer.len();
        assert(y * self.size.width >= 0) by (nonlinear_arith);
        let index = y * self.size.width + x;
        let sum = add_fn(self.buffer[index], sample);
        self.buffer.set(index, sum);
    }

    /// Replaces the sample of the pixel at index `y * width + x`.
    pub fn set(&mut self, x: usize, y: usize, sample: S)
        requires
            pixel_index(x as int, y as int, old(self).size().width as int) < old(self).samples().len(),
        ensures
            final(self).size() == old(self).size(),
            final(self).samples() == old(self).samples().update(
                pixel_index(x as int, y as int, old(self).size().width as int),
                sample,
            ),
    {
        let len = self.buffer.len();
        assert(y * self.size.width >= 0) by (nonlinear_arith);
        let index = y * self.size.width + x;
        self.buffer.set(index, sample);
    }

    /// The sample at index `y * width + x`, if the buffer has that many.
    pub fn get(&self, x: usize, y: usize) -> (sample: Option<&S>)
        ensures
            sample == if pixel_index(x as int, y as int, self.size().width as int)
                < self.samples().len() {
                Some(&self.samples()[pixel_index(x as int, y as int, self.size().width as int)])
            } else {
                None::<&S>
            },
    {
        let len = self.buffer.len();
        let row = match y.checked_mul(self.size.width) {
            Some(row) => row,
            None => {
                return None;
            },
        };
        let index = match row.checked_add(x) {
            Some(index) => index,
            None => {
                return None;
            },
        };
        if index < len {
            Some(&self.buffer[index])
        } else {
            None
        }
    }

    /// Resolves every pixel to 8 bits with `resolve_fn`.
    pub fn to_rgb8_buffer<R: Fn(S) -> RGB8>(&self, resolve_fn: R) -> (image: RGBuffer)
        requires
            self.wf(),
            forall|s: S| call_requires(resolve_fn, (s,)),
        ensures
            image.wf(),
            image.size() == self.size(),
            forall|i: int|
                0 <= i < self.samples().len() ==> call_ensures(
                    resolve_fn,
                    (self.samples()[i],),
                    #[trigger] image.pixels()[i],
                ),
    {
        let len = self.buffer.len();
        let mut image = RGBuffer::new(self.size);
        let mut y: usize = 0;
        while y < self.size.height
            invariant
                self.wf(),
                image.wf(),
                image.size() == self.size(),
                y <= self.size.height,
                forall|s: S| call_requires(resolve_fn, (s,)),
                forall|i: int|
                    0 <= i < y * self.size.width ==> call_ensures(
                        resolve_fn,
                        (self.samples()[i],),
                        #[trigger] image.pixels()[i],
                    ),
            decreases self.size.height - y,
        {
            let mut x: usize = 0;
            while x < self.size.width
                invariant
                    self.wf(),
                    image.wf(),
                    image.size() == self.size(),
                    y < self.size.height,
                    x <= self.size.width,
                    forall|s: S| call_requires(resolve_fn, (s,)),
                    forall|i: int|
                        0 <= i < y * self.size.width + x ==> call_ensures(
                            resolve_fn,
                            (self.samples()[i],),
                            #[trigger] image.pixels()[i],
                        ),
                decreases self.size.width - x,
            {
                proof {
                    lemma_pixel_index(
                        x as int,
                        y as int,
                        self.size.width as int,
                        self.size.height as int,
                    );
                }
                let len = self.buffer.len();
                let pixel = resolve_fn(self.buffer[y * self.size.width + x]);
                image.set(x, y, &pixel);
                x += 1;
            }
            assert((y + 1) * self.size.width == y * self.size.width + self.size.width)
                by (nonlinear_arith);
            y += 1;
        }
        assert(self.size.height * self.size.width == self.size.width * self.size.height)
            by (nonlinear_arith);
        image
    }

    /// Adds the samples of a finished tile to the image: every pixel that
    /// the tile's buffer covers and that lies in the image takes up the
    /// tile's sample for it.
    pub fn add_accumulation_tile_buffer<A: Fn(S, S) -> S>(
        &mut self,
        tile_buffer: &AccumlationTileBuffer<S>,
        add_fn: A,
    )
        requires
            old(self).wf(),
            tile_buffer.wf(),
            forall|a: S, b: S| call_requires(add_fn, (a, b)),
        ensures
            final(self).wf(),
            final(self).size() == old(self).size(),
            forall|x: int, y: int|
                0 <= x < old(self).size().width && 0 <= y < old(self).size().height
                    ==> if tile_buffer.covers(x, y) {
                    call_ensures(
                        add_fn,
                        (
                            old(self).samples()[pixel_index(x, y, old(self).size().width as int)],
                            tile_buffer.sample_at(x, y),
                        ),
                        #[trigger] final(self).samples()[pixel_index(
                            x,
                            y,
                            old(self).size().width as int,
                        )],
                    )
                } else {
                    final(self).samples()[pixel_index(x, y, old(self).size().width as int)]
                        == old(self).samples()[pixel_index(x, y, old(self).size().width as int)]
                },
    {
        let width = self.size.width;
        let height = self.size.height;
        let left = tile_buffer.left.min(width);
        let right = (tile_buffer.left + tile_buffer.width).min(width);
        let top = tile_buffer.top.min(height);
        let bottom = (tile_buffer.top + tile_buffer.height).min(height);
        let mut y: usize = top;
        while y < bottom
            invariant
                self.wf(),
                tile_buffer.wf(),
                self.size() == old(self).size(),
                width == self.size().width,
                height == self.size().height,
                left == if tile_buffer.left() < width {
                    tile_buffer.left()
                } else {
                    width as int
                },
                top == if tile_buffer.top() < height {
                    tile_buffer.top()
                } else {
                    height as int
                },
                right == if tile_buffer.left() + tile_buffer.width() < width {
                    tile_buffer.left() + tile_buffer.width()
                } else {
                    width as int
                },
                bottom == if tile_buffer.top() + tile_buffer.height() < height {
                    tile_buffer.top() + tile_buffer.height()
                } else {
                    height as int
                },
                top <= y,
                forall|a: S, b: S| call_requires(add_fn, (a, b)),
                forall|x: int, q: int|
                    0 <= x < width && 0 <= q < height ==> if tile_buffer.covers(x, q) && q < y {
                        call_ensures(
                            add_fn,
                            (
                                old(self).samples()[pixel_index(x, q, width as int)],
                                tile_buffer.sample_at(x, q),
                            ),
                            #[trigger] self.samples()[pixel_index(x, q, width as int)],
                        )
                    } else {
                        self.samples()[pixel_index(x, q, width as int)]
                            == old(self).samples()[pixel_index(x, q, width as int)]
                    },
            decreases bottom - y,
        {
            let mut x: usize = left;
            while x < right
                invariant
                    self.wf(),
                    tile_buffer.wf(),
                    self.size() == old(self).size(),
                    width == self.size().width,
                    height == self.size().height,
                    left == if tile_buffer.left() < width {
                        tile_buffer.left()
                    } else {
                        width as int
                    },
                    top == if tile_buffer.top() < height {
                        tile_buffer.top()
                    } else {
                        height as int
                    },
                    right == if tile_buffer.left() + tile_buffer.width() < width {
                        tile_buffer.left() + tile_buffer.width()
                    } else {
                        width as int
                    },
                    bottom == if tile_buffer.top() + tile_buffer.height() < height {
                        tile_buffer.top() + tile_buffer.height()
                    } else {
                        height as int
                    },
                    top <= y < bottom,
                    left <= x,
                    forall|a: S, b: S| call_requires(add_fn, (a, b)),
                    forall|p: int, q: int|
                        0 <= p < width && 0 <= q < height ==> if tile_buffer.covers(p, q) && (q < y
                            || (q == y && p < x)) {
                            call_ensures(
                                add_fn,
                                (
                                    old(self).samples()[pixel_index(p, q, width as int)],
                                    tile_buffer.sample_at(p, q),
                                ),
                                #[trigger] self.samples()[pixel_index(p, q, width as int)],
                            )
                        } else {
                            self.samples()[pixel_index(p, q, width as int)]
                                == old(self).samples()[pixel_index(p, q, width as int)]
                        },
                decreases right - x,
            {
                proof {
                    lemma_pixel_index(x as int, y as int, width as int, height as int);
                    lemma_pixel_index(
                        x - tile_buffer.left,
                        y - tile_buffer.top,
                        tile_buffer.width as int,
                        tile_buffer.height as int,
                    );
                }
                let len = self.buffer.len();
                let tile_len = tile_buffer.buffer.len();
                let src_index = (y - tile_buffer.top) * tile_buffer.width + (x - tile_buffer.left);
                let dst_index = y * width + x;
                let ghost before = self.buffer@;
                let sum = add_fn(self.buffer[dst_index], tile_buffer.buffer[src_index]);
                self.buffer.set(dst_index, sum);
                proof {
                    assert forall|p: int, q: int| 0 <= p < width && 0 <= q < height implies if tile_buffer.covers(
                        p,
                        q,
                    ) && (q < y || (q == y && p < x + 1)) {
                        call_ensures(
                            add_fn,
                            (
                                old(self).samples()[pixel_index(p, q, width as int)],
                                tile_buffer.sample_at(p, q),
                            ),
                            #[trigger] self.samples()[pixel_index(p, q, width as int)],
                        )
                    } else {
                        self.samples()[pixel_index(p, q, width as int)]
                            == old(self).samples()[pixel_index(p, q, width as int)]
                    } by {
                        if p != x || q != y {
                            assert(pixel_index(p, q, width as int) != dst_index);
                            lemma_pixel_index(p, q, width as int, height as int);
                            assert(self.samples()[pixel_index(p, q, width as int)]
                                == before[pixel_index(p, q, width as int)]);
                        }
                    }
                }
                x += 1;
            }
            y += 1;
        }
    }
}

} // verus!
