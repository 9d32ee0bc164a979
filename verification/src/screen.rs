//! The pixel grid and the drawing primitives.

use vstd::prelude::*;

verus! {

/// Number of columns of the display.
pub const SCREEN_WIDTH: usize = 128;

/// Number of rows of the display.
pub const SCREEN_HEIGHT: usize = 64;

/// The pixel grid of one frame; `true` is an "on" pixel.
///
/// The grid is stored by columns: `cols[x][y]` is the pixel in column `x`
/// and row `y`.
#[derive(Clone, Copy, Debug)]
pub struct ScreenBuffer {
    cols: [[bool; SCREEN_HEIGHT]; SCREEN_WIDTH],
}

/// Whether `(x, y)` names a pixel of the display.
pub open spec fn on_screen(x: int, y: int) -> bool {
    0 <= x < SCREEN_WIDTH && 0 <= y < SCREEN_HEIGHT
}

/// Whether `(px, py)` lies in the rectangle with corner `(x, y)` and size
/// `resx` by `resy`.
pub open spec fn in_rect(px: int, py: int, x: int, y: int, resx: int, resy: int) -> bool {
    x <= px < x + resx && y <= py < y + resy
}

/// The grid whose pixel at `(x, y)` is `f(x, y)`.
pub open spec fn grid(f: spec_fn(int, int) -> bool) -> Seq<Seq<bool>> {
    Seq::new(SCREEN_WIDTH as nat, |x: int| Seq::new(SCREEN_HEIGHT as nat, |y: int| f(x, y)))
}

/// Whether `g` has the shape of the display: 128 columns of 64 rows.
pub open spec fn is_grid(g: Seq<Seq<bool>>) -> bool {
    &&& g.len() == SCREEN_WIDTH
    &&& forall|x: int| 0 <= x < SCREEN_WIDTH ==> (#[trigger] g[x]).len() == SCREEN_HEIGHT
}

/// The grid with every pixel off.
pub open spec fn blank() -> Seq<Seq<bool>> {
    grid(|x: int, y: int| false)
}

/// `g` with the pixel at `(x, y)` set to `color`.
pub open spec fn pixel_set(g: Seq<Seq<bool>>, x: int, y: int, color: bool) -> Seq<Seq<bool>> {
    grid(|px: int, py: int| if px == x && py == y { color } else { g[px][py] })
}

/// `g` with `color` in every pixel of the rectangle with corner `(x, y)` and
/// size `resx` by `resy`; the part of the rectangle that is off the display
/// is dropped.
pub open spec fn rect_filled(
    g: Seq<Seq<bool>>,
    x: int,
    y: int,
    resx: int,
    resy: int,
    color: bool,
) -> Seq<Seq<bool>> {
    grid(|px: int, py: int| if in_rect(px, py, x, y, resx, resy) { color } else { g[px][py] })
}

/// The row-major picture of `g`: `SCREEN_HEIGHT` rows of `SCREEN_WIDTH`
/// pixels, row `y` holding `g[x][y]` at `x`.
pub open spec fn transposed(g: Seq<Seq<bool>>) -> Seq<Seq<bool>> {
    Seq::new(SCREEN_HEIGHT as nat, |y: int| Seq::new(SCREEN_WIDTH as nat, |x: int| g[x][y]))
}

impl View for ScreenBuffer {
    type V = Seq<Seq<bool>>;

    closed spec fn view(&self) -> Seq<Seq<bool>> {
        Seq::new(SCREEN_WIDTH as nat, |x: int| self.cols@[x]@)
    }
}

impl ScreenBuffer {
    /// The view of a buffer always has the shape of the display.
    pub broadcast proof fn view_is_grid(&self)
        ensures
            is_grid(#[trigger] self@),
    {
    }

    /// A buffer with every pixel off.
    pub fn new() -> (buf: ScreenBuffer)
        ensures
            buf@ == blank(),
    {
        let buf = ScreenBuffer { cols: [[false; SCREEN_HEIGHT]; SCREEN_WIDTH] };
        assert(buf@ =~~= blank());
        buf
    }

    /// The pixel at `(x, y)`.
    pub fn get_pixel(&self, x: usize, y: usize) -> (color: bool)
        requires
            on_screen(x as int, y as int),
        ensures
            color == self@[x as int][y as int],
    {
        self.cols[x][y]
    }

    /// Sets the pixel at `origin` to `color`. The pixel must be on the
    /// display.
    pub fn draw_pixel(&mut self, origin: (usize, usize), color: bool) -> (out: &mut Self)
        requires
            on_screen(origin.0 as int, origin.1 as int),
        ensures
            out@ == pixel_set(old(self)@, origin.0 as int, origin.1 as int, color),
            *final(self) == *final(out),
    {
        let x: usize = origin.0;
        let y: usize = origin.1;
        self.cols[x][y] = color;
        assert(self@ =~~= pixel_set(old(self)@, x as int, y as int, color));
        self
    }

    /// Fills the rectangle with corner `origin` and size `res` with `color`.
    /// What lies off the display is skipped.
    pub fn draw_rectangle(
        &mut self,
        origin: (usize, usize),
        res: (usize, usize),
        color: bool,
    ) -> (out: &mut Self)
        ensures
            out@ == rect_filled(
                old(self)@,
                origin.0 as int,
                origin.1 as int,
                res.0 as int,
                res.1 as int,
                color,
            ),
            *final(self) == *final(out),
    {
        let x: usize = origin.0;
        let y: usize = origin.1;
        let x_end: usize = clip_end(x, res.0, SCREEN_WIDTH);
        let y_end: usize = clip_end(y, res.1, SCREEN_HEIGHT);
        let mut px: usize = x;
        while px < x_end
            invariant
                x <= px <= x_end,
                x_end == clipped_end(x as int, res.0 as int, SCREEN_WIDTH as int),
                y_end == clipped_end(y as int, res.1 as int, SCREEN_HEIGHT as int),
                forall|qx: int, qy: int|
                    on_screen(qx, qy) ==> #[trigger] self@[qx][qy] == (if x <= qx < px && y <= qy
                        < y_end {
                        color
                    } else {
                        old(self)@[qx][qy]
                    }),
            decreases x_end - px,
        {
            let mut py: usize = y;
            while py < y_end
                invariant
                    x <= px < x_end,
                    y <= py <= y_end,
                    x_end == clipped_end(x as int, res.0 as int, SCREEN_WIDTH as int),
                    y_end == clipped_end(y as int, res.1 as int, SCREEN_HEIGHT as int),
                    forall|qx: int, qy: int|
                        on_screen(qx, qy) ==> #[trigger] self@[qx][qy] == (if y <= qy < y_end
                            && (x <= qx < px || (qx == px && qy < py)) {
                            color
                        } else {
                            old(self)@[qx][qy]
                        }),
                decreases y_end - py,
            {
                self.draw_pixel((px, py), color);
                py = py + 1;
            }
            px = px + 1;
        }
        assert(self@ =~~= rect_filled(
            old(self)@,
            x as int,
            y as int,
            res.0 as int,
            res.1 as int,
            color,
        ));
        self
    }

    /// The row-major picture of the buffer, for showing it to a person: row
    /// `y` of the result holds the pixels of row `y`, left to right.
    pub fn transpose(&self) -> (rows: Vec<Vec<bool>>)
        ensures
            rows.deep_view() == transposed(self@),
    {
        let mut rows: Vec<Vec<bool>> = Vec::new();
        let mut y: usize = 0;
        while y < SCREEN_HEIGHT
            invariant
                y <= SCREEN_HEIGHT,
                rows@.len() == y,
                forall|j: int|
                    0 <= j < y ==> (#[trigger] rows@[j])@ == Seq::new(
                        SCREEN_WIDTH as nat,
                        |x: int| self@[x][j],
                    ),
            decreases SCREEN_HEIGHT - y,
        {
            let mut row: Vec<bool> = Vec::new();
            let mut x: usize = 0;
            while x < SCREEN_WIDTH
                invariant
                    x <= SCREEN_WIDTH,
                    y < SCREEN_HEIGHT,
                    row@.len() == x,
                    forall|i: int| 0 <= i < x ==> row@[i] == self@[i][y as int],
                decreases SCREEN_WIDTH - x,
            {
                row.push(self.cols[x][y]);
                x = x + 1;
            }
            assert(row@ =~= Seq::new(SCREEN_WIDTH as nat, |x: int| self@[x][y as int]));
            rows.push(row);
            y = y + 1;
        }
        assert(rows.deep_view() =~~= transposed(self@));
        rows
    }
}

/// The end of the part of `start .. start + len` that lies below `limit`;
/// `start` itself where nothing of it does.
pub open spec fn clipped_end(start: int, len: int, limit: int) -> int {
    if start >= limit {
        start
    } else if len < limit - start {
        start + len
    } else {
        limit
    }
}

/// Clips the range `start .. start + len` to `limit` without overflow.
pub fn clip_end(start: usize, len: usize, limit: usize) -> (end: usize)
    ensures
        end == clipped_end(start as int, len as int, limit as int),
{
    if start >= limit {
        start
    } else if len < limit - start {
        start + len
    } else {
        limit
    }
}

} // verus!
