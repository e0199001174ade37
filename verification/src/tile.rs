//! Tiles: half-open rectangles of pixels, the unit of rendering work.

use vstd::prelude::*;
use vstd::arithmetic::div_mod::lemma_fundamental_div_mod;
use vstd::arithmetic::div_mod::lemma_fundamental_div_mod_converse;
use crate::rgb::ImageSize;

verus! {

/// The pixels `(x, y)` with `x1 <= x < x2` and `y1 <= y < y2`.
#[derive(Debug, Clone, Copy, PartialEq, Eq, Structural)]
pub struct Tile {
    pub x1: usize,
    pub y1: usize,
    pub x2: usize,
    pub y2: usize,
}

/// How many pieces of length `size` cover a stretch of length `extent`; the
/// last piece may be shorter.
pub open spec fn pieces(extent: int, size: int) -> int {
    if extent <= 0 {
        0
    } else {
        (extent + size - 1) / size
    }
}

/// Where piece `c` ends: one piece further, or at the end of the stretch.
pub open spec fn piece_end(start: int, end: int, size: int, c: int) -> int {
    if start + (c + 1) * size < end {
        start + (c + 1) * size
    } else {
        end
    }
}

/// Piece `c` starts before the end of the stretch exactly when `c` is below
/// the number of pieces.
pub proof fn lemma_pieces(extent: int, size: int, c: int)
    requires
        size > 0,
        c >= 0,
    ensures
        c * size < extent <==> c < pieces(extent, size),
        pieces(extent, size) >= 0,
{
    if extent > 0 {
        let total = extent + size - 1;
        let q = total / size;
        lemma_fundamental_div_mod(total, size);
        assert(0 <= total % size < size);
        assert(c * size < extent <==> c < q) by (nonlinear_arith)
            requires
                total == size * q + total % size,
                0 <= total % size < size,
                total == extent + size - 1,
                size > 0,
                c >= 0,
        ;
        assert(q >= 0) by (nonlinear_arith)
            requires
                total == size * q + total % size,
                0 <= total % size < size,
                total >= 0,
                size > 0,
        ;
    } else {
        assert(c * size >= 0) by (nonlinear_arith)
            requires
                c >= 0,
                size > 0,
        ;
    }
}

impl Tile {
    /// The tile is not empty.
    pub open spec fn wf(&self) -> bool {
        self.x1 < self.x2 && self.y1 < self.y2
    }

    pub open spec fn contains(&self, x: int, y: int) -> bool {
        self.x1 <= x < self.x2 && self.y1 <= y < self.y2
    }

    /// Number of columns of the grid that `split` cuts the tile into.
    pub open spec fn grid_columns(&self, x_size: int) -> int {
        pieces(self.x2 - self.x1, x_size)
    }

    /// Number of rows of the grid that `split` cuts the tile into.
    pub open spec fn grid_rows(&self, y_size: int) -> int {
        pieces(self.y2 - self.y1, y_size)
    }

    /// The piece in column `c` and row `r` of the grid: `x_size` wide and
    /// `y_size` high, cut off at the tile's right and lower edge.
    pub open spec fn grid_cell(&self, x_size: int, y_size: int, c: int, r: int) -> Tile {
        Tile {
            x1: (self.x1 + c * x_size) as usize,
            y1: (self.y1 + r * y_size) as usize,
            x2: piece_end(self.x1 as int, self.x2 as int, x_size, c) as usize,
            y2: piece_end(self.y1 as int, self.y2 as int, y_size, r) as usize,
        }
    }

    pub fn new(x1: usize, y1: usize, x2: usize, y2: usize) -> (tile: Self)
        requires
            x1 < x2,
            y1 < y2,
        ensures
            tile == (Tile { x1, y1, x2, y2 }),
            tile.wf(),
    {
        Self { x1, y1, x2, y2 }
    }

    /// Cuts the tile into pieces of at most `x_size` by `y_size` pixels, row
    /// by row from the top, each row from the left.
    pub fn split(&self, x_size: usize, y_size: usize) -> (tiles: Vec<Tile>)
        requires
            x_size > 0,
            y_size > 0,
        ensures
            tiles@.len() == self.grid_columns(x_size as int) * self.grid_rows(y_size as int),
            forall|c: int, r: int|
                0 <= c < self.grid_columns(x_size as int) && 0 <= r < self.grid_rows(y_size as int)
                    ==> #[trigger] tiles@[r * self.grid_columns(x_size as int) + c]
                    == self.grid_cell(x_size as int, y_size as int, c, r),
    {
        let ghost cols = self.grid_columns(x_size as int);
        let ghost rows = self.grid_rows(y_size as int);
        let mut tiles: Vec<Tile> = Vec::new();
        let mut y: usize = self.y1;
        let ghost mut r: int = 0;
        proof {
            lemma_pieces(self.x2 - self.x1, x_size as int, 0);
            lemma_pieces(self.y2 - self.y1, y_size as int, 0);
            assert(0 * cols == 0);
        }
        while y < self.y2
            invariant
                x_size > 0,
                y_size > 0,
                cols == self.grid_columns(x_size as int),
                rows == self.grid_rows(y_size as int),
                cols >= 0,
                0 <= r <= rows,
                r < rows ==> y == self.y1 + r * y_size,
                r == rows ==> y >= self.y2,
                tiles@.len() == r * cols,
                forall|c: int, q: int|
                    0 <= c < cols && 0 <= q < r ==> #[trigger] tiles@[q * cols + c]
                        == self.grid_cell(x_size as int, y_size as int, c, q),
            decreases rows - r,
        {
            proof {
                lemma_pieces(self.y2 - self.y1, y_size as int, r);
                lemma_pieces(self.y2 - self.y1, y_size as int, r + 1);
                lemma_pieces(self.x2 - self.x1, x_size as int, 0);
                assert((r + 1) * y_size == r * y_size + y_size) by (nonlinear_arith);
                assert(0 * x_size == 0);
            }
            let y2 = if self.y2 - y <= y_size {
                self.y2
            } else {
                y + y_size
            };
            let mut x: usize = self.x1;
            let ghost mut c: int = 0;
            while x < self.x2
                invariant
                    x_size > 0,
                    y_size > 0,
                    cols == self.grid_columns(x_size as int),
                    cols >= 0,
                    0 <= r,
                    0 <= c <= cols,
                    c < cols ==> x == self.x1 + c * x_size,
                    c == cols ==> x >= self.x2,
                    y == self.y1 + r * y_size,
                    y < y2 <= self.y2,
                    y2 == piece_end(self.y1 as int, self.y2 as int, y_size as int, r),
                    tiles@.len() == r * cols + c,
                    forall|d: int, q: int|
                        0 <= d < cols && 0 <= q < r ==> #[trigger] tiles@[q * cols + d]
                            == self.grid_cell(x_size as int, y_size as int, d, q),
                    forall|d: int|
                        0 <= d < c ==> #[trigger] tiles@[r * cols + d] == self.grid_cell(
                            x_size as int,
                            y_size as int,
                            d,
                            r,
                        ),
                decreases cols - c,
            {
                proof {
                    lemma_pieces(self.x2 - self.x1, x_size as int, c);
                    lemma_pieces(self.x2 - self.x1, x_size as int, c + 1);
                    assert((c + 1) * x_size == c * x_size + x_size) by (nonlinear_arith);
                }
                let x2 = if self.x2 - x <= x_size {
                    self.x2
                } else {
                    x + x_size
                };
                let ghost before = tiles@;
                tiles.push(Tile::new(x, y, x2, y2));
                proof {
                    assert forall|d: int, q: int| 0 <= d < cols && 0 <= q < r implies #[trigger] tiles@[q
                        * cols + d] == self.grid_cell(x_size as int, y_size as int, d, q) by {
                        assert(q * cols + d < r * cols) by (nonlinear_arith)
                            requires
                                0 <= d < cols,
                                0 <= q < r,
                        ;
                        assert(tiles@[q * cols + d] == before[q * cols + d]);
                    }
                    c = c + 1;
                }
                x = if self.x2 - x <= x_size {
                    self.x2
                } else {
                    x + x_size
                };
            }
            proof {
                lemma_pieces(self.x2 - self.x1, x_size as int, c);
                assert(c == cols);
                assert((r + 1) * cols == r * cols + cols) by (nonlinear_arith);
                r = r + 1;
            }
            y = y2;
        }
        proof {
            assert(r == rows) by {
                lemma_pieces(self.y2 - self.y1, y_size as int, r);
            }
            assert(rows * cols == cols * rows) by (nonlinear_arith);
        }
        tiles
    }

    pub fn width(&self) -> (w: usize)
        requires
            self.x1 <= self.x2,
        ensures
            w == self.x2 - self.x1,
    {
        self.x2 - self.x1
    }

    pub fn height(&self) -> (h: usize)
        requires
            self.y1 <= self.y2,
        ensures
            h == self.y2 - self.y1,
    {
        self.y2 - self.y1
    }

    pub fn size(&self) -> (size: ImageSize)
        requires
            self.x1 <= self.x2,
            self.y1 <= self.y2,
        ensures
            size.width == self.x2 - self.x1,
            size.height == self.y2 - self.y1,
    {
        ImageSize { width: self.x2 - self.x1, height: self.y2 - self.y1 }
    }

    /// The walk over the tile's pixels, row by row from `(x1, y1)`.
    pub fn into_iter(self) -> (iter: TileIterator)
        ensures
            iter == (TileIterator { tile: self, x: self.x1, y: self.y1 }),
    {
        TileIterator { tile: self, x: self.x1, y: self.y1 }
    }
}

/// Every pixel of a tile lies in exactly one piece of its grid: the one in
/// column `(x - x1) / x_size` and row `(y - y1) / y_size`.
pub proof fn lemma_split_covers(tile: Tile, x_size: int, y_size: int, x: int, y: int, c: int, r: int)
    requires
        x_size > 0,
        y_size > 0,
        tile.contains(x, y),
        0 <= c,
        0 <= r,
    ensures
        0 <= (x - tile.x1) / x_size < tile.grid_columns(x_size),
        0 <= (y - tile.y1) / y_size < tile.grid_rows(y_size),
        x_size <= usize::MAX && y_size <= usize::MAX && c < tile.grid_columns(x_size) && r
            < tile.grid_rows(y_size) ==> (tile.grid_cell(x_size, y_size, c, r).contains(x, y) <==> c
            == (x - tile.x1) / x_size && r == (y - tile.y1) / y_size),
{
    lemma_axis_covers(tile.x1 as int, tile.x2 as int, x_size, x, c);
    lemma_axis_covers(tile.y1 as int, tile.y2 as int, y_size, y, r);
}

/// Along one axis: the point `p` of the stretch `[start, end)` lies in piece
/// `(p - start) / size` and in no other.
proof fn lemma_axis_covers(start: int, end: int, size: int, p: int, c: int)
    requires
        size > 0,
        0 <= start <= p < end,
        0 <= c,
    ensures
        0 <= (p - start) / size < pieces(end - start, size),
        c < pieces(end - start, size) ==> start + c * size < end,
        c < pieces(end - start, size) ==> ((start + c * size <= p < piece_end(start, end, size, c))
            <==> c == (p - start) / size),
{
    let d = p - start;
    let q = d / size;
    lemma_fundamental_div_mod(d, size);
    assert(0 <= d % size < size);
    assert(q >= 0 && q * size <= d < (q + 1) * size) by (nonlinear_arith)
        requires
            d == size * q + d % size,
            0 <= d % size < size,
            d >= 0,
            size > 0,
    ;
    lemma_pieces(end - start, size, q);
    lemma_pieces(end - start, size, c);
    if c < pieces(end - start, size) {
        assert((c + 1) * size == c * size + size) by (nonlinear_arith);
        if start + c * size <= p < piece_end(start, end, size, c) {
            assert(c * size <= d < (c + 1) * size);
            lemma_fundamental_div_mod_converse(d, size, c, d - c * size);
        }
        if c == q {
            assert(p < piece_end(start, end, size, c));
        }
    }
}

/// A walk over the pixels of a tile, row by row.
pub struct TileIterator {
    pub tile: Tile,
    pub x: usize,
    pub y: usize,
}

impl TileIterator {
    /// The walk stands on a pixel of its tile, or at the start of the row
    /// after the last.
    pub open spec fn wf(&self) -> bool {
        &&& self.tile.wf()
        &&& self.tile.x1 <= self.x < self.tile.x2
        &&& self.tile.y1 <= self.y <= self.tile.y2
        &&& self.y == self.tile.y2 ==> self.x == self.tile.x1
    }

    /// How many pixels the walk has passed.
    pub open spec fn position(&self) -> int {
        (self.y - self.tile.y1) * (self.tile.x2 - self.tile.x1) + (self.x - self.tile.x1)
    }

    /// The pixel the walk stands on, then one step on: to the right, or to
    /// the start of the next row at the tile's right edge. `None` once the
    /// walk is past the last row.
    pub fn next(&mut self) -> (pixel: Option<(usize, usize)>)
        ensures
            final(self).tile == old(self).tile,
            old(self).y >= old(self).tile.y2 ==> pixel.is_none() && *final(self) == *old(self),
            old(self).y < old(self).tile.y2 ==> {
                &&& pixel == Some((old(self).x, old(self).y))
                &&& if old(self).x + 1 < old(self).tile.x2 {
                    final(self).x == old(self).x + 1 && final(self).y == old(self).y
                } else {
                    final(self).x == old(self).tile.x1 && final(self).y == old(self).y + 1
                }
            },
            old(self).wf() ==> final(self).wf(),
            old(self).wf() && old(self).y < old(self).tile.y2 ==> final(self).position() == old(
                self,
            ).position() + 1,
    {
        if self.y >= self.tile.y2 {
            return None;
        }
        let result = (self.x, self.y);
        if self.x < usize::MAX && self.x + 1 < self.tile.x2 {
            self.x = self.x + 1;
        } else {
            self.x = self.tile.x1;
            self.y = self.y + 1;
        }
        proof {
            if old(self).wf() {
                let w = self.tile.x2 - self.tile.x1;
                let row = old(self).y - self.tile.y1;
                assert((row + 1) * w == row * w + w) by (nonlinear_arith);
            }
        }
        Some(result)
    }
}

/// The pixel that a walk over `tile` stands on after `k` steps.
pub open spec fn nth_pixel(tile: Tile, k: int) -> (int, int) {
    (tile.x1 + k % (tile.x2 - tile.x1), tile.y1 + k / (tile.x2 - tile.x1))
}

/// A walk that has passed `k` pixels stands on pixel `k` of the row-major
/// order, and it is past the last row exactly when `k` is the tile's area.
pub proof fn lemma_walk_is_row_major(iter: TileIterator)
    requires
        iter.wf(),
    ensures
        0 <= iter.position() <= (iter.tile.x2 - iter.tile.x1) * (iter.tile.y2 - iter.tile.y1),
        iter.y < iter.tile.y2 ==> nth_pixel(iter.tile, iter.position()) == (
            iter.x as int,
            iter.y as int,
        ),
        iter.y >= iter.tile.y2 <==> iter.position() >= (iter.tile.x2 - iter.tile.x1) * (iter.tile.y2
            - iter.tile.y1),
{
    let w = iter.tile.x2 - iter.tile.x1;
    let h = iter.tile.y2 - iter.tile.y1;
    let row = iter.y - iter.tile.y1;
    let col = iter.x - iter.tile.x1;
    lemma_fundamental_div_mod_converse(iter.position(), w, row, col);
    assert(row * w >= 0 && (row < h ==> row * w + col < w * h) && (row >= h ==> row * w >= w * h))
        by (nonlinear_arith)
        requires
            0 <= row,
            0 <= col < w,
            0 < h,
    ;
}

} // verus!
