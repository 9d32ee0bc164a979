//! Text on the grid: a string is cut into lines that fit between its origin
//! and the right edge, and the "on" pixels of its glyphs are laid over the
//! grid, one line below the other.

use crate::font::{chars_of, chars_to_matrix, glyph_pixel, text_matrix};
use crate::screen::{
    clip_end, clipped_end, grid, is_grid, on_screen, ScreenBuffer, SCREEN_HEIGHT, SCREEN_WIDTH,
};
use vstd::prelude::*;

verus! {

broadcast use crate::screen::ScreenBuffer::view_is_grid;

/// Number of characters in one line of a text that starts in column `x`:
/// as many glyphs of eight columns as fit before the right edge, and 1
/// where not even one fits.
pub open spec fn chunk_size(x: int) -> int {
    if (SCREEN_WIDTH - x) / 8 >= 1 {
        (SCREEN_WIDTH - x) / 8
    } else {
        1
    }
}

/// Number of lines that `len` characters take with `size` to the line:
/// `len / size`, rounded up.
pub open spec fn chunk_count(len: int, size: int) -> int {
    (len + size - 1) / size
}

/// Line `line` of `text` cut into lines of `size` characters.
pub open spec fn text_chunk(text: Seq<char>, size: int, line: int) -> Seq<char> {
    text.subrange(
        line * size,
        if (line + 1) * size < text.len() {
            (line + 1) * size
        } else {
            text.len() as int
        },
    )
}

/// Whether `text`, written from `(x, y)`, has an "on" glyph pixel at
/// `(px, py)`. Line `l` of the text lies eight rows below line `l - 1`;
/// in a line, character `k` lies eight columns right of character `k - 1`.
pub open spec fn text_pixel(text: Seq<char>, x: int, y: int, px: int, py: int) -> bool {
    let size = chunk_size(x);
    let line = (py - y) / 8;
    let k = (px - x) / 8;
    &&& x <= px
    &&& y <= py
    &&& k < size
    &&& line * size + k < text.len()
    &&& glyph_pixel(text[line * size + k], (px - x) % 8, (py - y) % 8)
}

/// `g` with `text` written on it from `(x, y)` in `color`: the "on" pixels
/// of the glyphs take `color`, every other pixel stays as it is. What falls
/// off the display is dropped.
pub open spec fn written(
    g: Seq<Seq<bool>>,
    text: Seq<char>,
    x: int,
    y: int,
    color: bool,
) -> Seq<Seq<bool>> {
    grid(|px: int, py: int| if text_pixel(text, x, y, px, py) { color } else { g[px][py] })
}

/// `g` with the first `lines` lines of `text` written on it.
pub open spec fn written_lines(
    g: Seq<Seq<bool>>,
    text: Seq<char>,
    x: int,
    y: int,
    color: bool,
    lines: int,
) -> Seq<Seq<bool>> {
    grid(
        |px: int, py: int|
            if text_pixel(text, x, y, px, py) && (py - y) / 8 < lines {
                color
            } else {
                g[px][py]
            },
    )
}

/// `g` with the "on" pixels of the columns `m` laid over it in `color`,
/// column 0 of `m` in column `x`, its top row in row `top`.
pub open spec fn overlaid(
    g: Seq<Seq<bool>>,
    m: Seq<Seq<bool>>,
    x: int,
    top: int,
    color: bool,
) -> Seq<Seq<bool>> {
    grid(
        |px: int, py: int|
            if x <= px < x + m.len() && top <= py < top + 8 && m[px - x][py - top] {
                color
            } else {
                g[px][py]
            },
    )
}

/// The line length for a text that starts in column `x`.
pub fn line_length(x: usize) -> (size: usize)
    ensures
        size == chunk_size(x as int),
        1 <= size <= 16,
{
    if x < SCREEN_WIDTH && (SCREEN_WIDTH - x) / 8 >= 1 {
        (SCREEN_WIDTH - x) / 8
    } else {
        1
    }
}

/// `n` characters take `count` lines where `count` lines are enough for
/// them and `count - 1` are not.
pub proof fn chunk_count_between(n: int, size: int, count: int)
    requires
        size >= 1,
        (count - 1) * size < n <= count * size,
    ensures
        chunk_count(n, size) == count,
{
    let m = n + size - 1;
    assert(count * size <= m < count * size + size) by (nonlinear_arith)
        requires
            size >= 1,
            (count - 1) * size < n <= count * size,
            m == n + size - 1,
    ;
    vstd::arithmetic::div_mod::lemma_fundamental_div_mod_converse(m, size, count, m - count * size);
}

/// The line count is the length over the line size, rounded up: that many
/// lines hold the text, and one line fewer does not.
pub proof fn chunk_count_rounds_up(len: int, size: int)
    requires
        len >= 0,
        size >= 1,
    ensures
        (chunk_count(len, size) - 1) * size < len <= chunk_count(len, size) * size,
{
    let n = len + size - 1;
    let count = chunk_count(len, size);
    vstd::arithmetic::div_mod::lemma_fundamental_div_mod(n, size);
    vstd::arithmetic::div_mod::lemma_mod_bound(n, size);
    assert((count - 1) * size < len <= count * size) by (nonlinear_arith)
        requires
            size >= 1,
            n == len + size - 1,
            n == size * count + n % size,
            0 <= n % size < size,
    ;
}

/// Cuts `chars` into the lines of a text that starts in column `x`, in
/// order. There are `chars.len() / size` lines, rounded up, where `size` is
/// the line length; line `line` holds the characters from `line * size` up
/// to the next line or the end of the text.
pub fn split_chunks(chars: &Vec<char>, x: usize) -> (chunks: Vec<Vec<char>>)
    ensures
        chunks@.len() == chunk_count(chars@.len() as int, chunk_size(x as int)),
        forall|line: int|
            0 <= line < chunks@.len() ==> (#[trigger] chunks@[line])@ == text_chunk(
                chars@,
                chunk_size(x as int),
                line,
            ),
{
    let size: usize = line_length(x);
    let len: usize = chars.len();
    let mut chunks: Vec<Vec<char>> = Vec::new();
    let mut start: usize = 0;
    proof {
        chunk_count_between(0, size as int, 0);
    }
    while start < len
        invariant
            1 <= size <= 16,
            size == chunk_size(x as int),
            len == chars@.len(),
            start <= len,
            chunks@.len() == chunk_count(start as int, size as int),
            start < len ==> start == chunks@.len() * size,
            forall|line: int|
                0 <= line < chunks@.len() ==> (#[trigger] chunks@[line])@ == text_chunk(
                    chars@,
                    size as int,
                    line,
                ),
        decreases len - start,
    {
        let end: usize = if size < len - start {
            start + size
        } else {
            len
        };
        let ghost line = chunks@.len() as int;
        proof {
            assert((line + 1) * size == start + size && (line + 1 - 1) * size == start)
                by (nonlinear_arith)
                requires
                    start == line * size,
            ;
            chunk_count_between(end as int, size as int, line + 1);
        }
        let mut chunk: Vec<char> = Vec::new();
        let mut i: usize = start;
        while i < end
            invariant
                start <= i <= end <= len,
                len == chars@.len(),
                chunk@ == chars@.subrange(start as int, i as int),
            decreases end - i,
        {
            chunk.push(chars[i]);
            assert(chars@.subrange(start as int, i as int).push(chars@[i as int])
                =~= chars@.subrange(start as int, i + 1));
            i = i + 1;
        }
        assert(chunk@ == text_chunk(chars@, size as int, line));
        chunks.push(chunk);
        start = end;
    }
    chunks
}

/// `count` lines hold the whole text, and `count - 1` do not: line `line`
/// starts inside the text exactly when `line < count`.
pub proof fn line_starts_in_text(len: int, size: int, line: int)
    requires
        size >= 1,
        len >= 0,
        line >= 0,
    ensures
        line * size < len <==> line < chunk_count(len, size),
{
    let n = len + size - 1;
    let count = chunk_count(len, size);
    vstd::arithmetic::div_mod::lemma_fundamental_div_mod(n, size);
    vstd::arithmetic::div_mod::lemma_mod_bound(n, size);
    assert(line * size < len <==> line < count) by (nonlinear_arith)
        requires
            size >= 1,
            line >= 0,
            n == len + size - 1,
            n == size * count + n % size,
            0 <= n % size < size,
    ;
}

/// Laying line `line` of `text` over a grid on which the lines before it
/// are written gives the grid on which the lines up to it are written.
pub proof fn overlay_writes_line(
    g: Seq<Seq<bool>>,
    text: Seq<char>,
    x: int,
    y: int,
    color: bool,
    line: int,
)
    requires
        0 <= x,
        0 <= y,
        0 <= line < chunk_count(text.len() as int, chunk_size(x)),
    ensures
        overlaid(
            written_lines(g, text, x, y, color, line),
            text_matrix(text_chunk(text, chunk_size(x), line)),
            x,
            y + 8 * line,
            color,
        ) == written_lines(g, text, x, y, color, line + 1),
{
    let size = chunk_size(x);
    let chunk = text_chunk(text, size, line);
    let m = text_matrix(chunk);
    let top = y + 8 * line;
    let base = line * size;
    line_starts_in_text(text.len() as int, size, line);
    assert((line + 1) * size == base + size) by (nonlinear_arith)
        requires
            base == line * size,
    ;
    let before = written_lines(g, text, x, y, color, line);
    let after = written_lines(g, text, x, y, color, line + 1);
    let laid = overlaid(before, m, x, top, color);
    assert forall|px: int, py: int| on_screen(px, py) implies #[trigger] laid[px][py]
        == after[px][py] by {
        let in_line = top <= py < top + 8;
        assert(in_line <==> (y <= py && (py - y) / 8 == line));
        if in_line && x <= px {
            let k = (px - x) / 8;
            assert((py - y) % 8 == py - top);
            assert(px - x < m.len() <==> (k < size && base + k < text.len()));
            if px - x < m.len() {
                assert(chunk[k] == text[base + k]);
                assert(m[px - x][py - top] == glyph_pixel(chunk[k], (px - x) % 8, py - top));
            }
        }
    }
    assert(laid =~~= after);
}

/// Writing composes: a second text changes only the pixels under its own
/// "on" glyph pixels. Where the second text has no "on" pixel, what the
/// first text wrote is still there.
pub proof fn second_text_keeps_first(
    g: Seq<Seq<bool>>,
    first: Seq<char>,
    first_origin: (int, int),
    first_color: bool,
    second: Seq<char>,
    second_origin: (int, int),
    second_color: bool,
    px: int,
    py: int,
)
    requires
        on_screen(px, py),
        !text_pixel(second, second_origin.0, second_origin.1, px, py),
    ensures
        written(
            written(g, first, first_origin.0, first_origin.1, first_color),
            second,
            second_origin.0,
            second_origin.1,
            second_color,
        )[px][py] == written(g, first, first_origin.0, first_origin.1, first_color)[px][py],
        text_pixel(first, first_origin.0, first_origin.1, px, py) ==> written(
            written(g, first, first_origin.0, first_origin.1, first_color),
            second,
            second_origin.0,
            second_origin.1,
            second_color,
        )[px][py] == first_color,
{
}

/// The empty text writes nothing.
pub proof fn empty_text_writes_nothing(g: Seq<Seq<bool>>, x: int, y: int, color: bool)
    requires
        is_grid(g),
    ensures
        written(g, Seq::<char>::empty(), x, y, color) == g,
{
    let text = Seq::<char>::empty();
    assert forall|px: int, py: int| on_screen(px, py) implies !text_pixel(text, x, y, px, py) by {
        if x <= px && y <= py {
            let size = chunk_size(x);
            let line = (py - y) / 8;
            assert(line * size >= 0) by (nonlinear_arith)
                requires
                    line >= 0,
                    size >= 1,
            ;
        }
    }
    assert(written(g, text, x, y, color) =~~= g);
}

impl ScreenBuffer {
    /// Lays the "on" pixels of `matrix` over the buffer in `color`: column
    /// 0 of `matrix` goes to column `origin.0`, its top row to row
    /// `origin.1 + 8 * line`. What falls off the display is dropped.
    pub fn overlay(
        &mut self,
        matrix: &Vec<Vec<bool>>,
        origin: (usize, usize),
        line: usize,
        color: bool,
    ) -> (out: &mut Self)
        requires
            forall|i: int| 0 <= i < matrix@.len() ==> (#[trigger] matrix@[i])@.len() == 8,
        ensures
            out@ == overlaid(
                old(self)@,
                matrix.deep_view(),
                origin.0 as int,
                origin.1 + 8 * line,
                color,
            ),
            *final(self) == *final(out),
    {
        let x: usize = origin.0;
        let y: usize = origin.1;
        if y >= SCREEN_HEIGHT || line >= 8 {
            assert(self@ =~~= overlaid(
                old(self)@,
                matrix.deep_view(),
                x as int,
                y + 8 * line,
                color,
            ));
            return self;
        }
        let top: usize = y + 8 * line;
        let x_end: usize = clip_end(x, matrix.len(), SCREEN_WIDTH);
        let y_end: usize = clip_end(top, 8, SCREEN_HEIGHT);
        let mut px: usize = x;
        while px < x_end
            invariant
                x <= px <= x_end,
                x_end == clipped_end(x as int, matrix@.len() as int, SCREEN_WIDTH as int),
                y_end == clipped_end(top as int, 8, SCREEN_HEIGHT as int),
                forall|i: int| 0 <= i < matrix@.len() ==> (#[trigger] matrix@[i])@.len() == 8,
                forall|qx: int, qy: int|
                    on_screen(qx, qy) ==> #[trigger] self@[qx][qy] == (if x <= qx < px && top <= qy
                        < y_end && matrix@[qx - x]@[qy - top] {
                        color
                    } else {
                        old(self)@[qx][qy]
                    }),
            decreases x_end - px,
        {
            let mut py: usize = top;
            while py < y_end
                invariant
                    x <= px < x_end,
                    top <= py <= y_end,
                    x_end == clipped_end(x as int, matrix@.len() as int, SCREEN_WIDTH as int),
                    y_end == clipped_end(top as int, 8, SCREEN_HEIGHT as int),
                    forall|i: int| 0 <= i < matrix@.len() ==> (#[trigger] matrix@[i])@.len() == 8,
                    forall|qx: int, qy: int|
                        on_screen(qx, qy) ==> #[trigger] self@[qx][qy] == (if top <= qy < y_end && (
                        x <= qx < px || (qx == px && qy < py)) && matrix@[qx - x]@[qy - top] {
                            color
                        } else {
                            old(self)@[qx][qy]
                        }),
                decreases y_end - py,
            {
                if matrix[px - x][py - top] {
                    self.draw_pixel((px, py), color);
                }
                py = py + 1;
            }
            px = px + 1;
        }
        assert forall|i: int, j: int|
            0 <= i < matrix@.len() && 0 <= j < 8 implies #[trigger] matrix.deep_view()[i][j]
            == matrix@[i]@[j] by {}
        assert(self@ =~~= overlaid(old(self)@, matrix.deep_view(), x as int, y + 8 * line, color));
        self
    }

    /// Writes `chars` from `origin` in `color`. The text is cut into lines
    /// of [`chunk_size`] characters, each line eight rows below the one
    /// before; only the "on" pixels of the glyphs are written.
    pub fn write_chars(
        &mut self,
        chars: &Vec<char>,
        origin: (usize, usize),
        color: bool,
    ) -> (out: &mut Self)
        ensures
            out@ == written(old(self)@, chars@, origin.0 as int, origin.1 as int, color),
            *final(self) == *final(out),
    {
        let ghost x = origin.0 as int;
        let ghost y = origin.1 as int;
        let ghost size = chunk_size(x);
        let chunks = split_chunks(chars, origin.0);
        assert(self@ =~~= written_lines(old(self)@, chars@, x, y, color, 0));
        let mut line: usize = 0;
        while line < chunks.len()
            invariant
                x == origin.0,
                y == origin.1,
                size == chunk_size(x),
                line <= chunks@.len(),
                chunks@.len() == chunk_count(chars@.len() as int, size),
                forall|l: int|
                    0 <= l < chunks@.len() ==> (#[trigger] chunks@[l])@ == text_chunk(
                        chars@,
                        size,
                        l,
                    ),
                self@ == written_lines(old(self)@, chars@, x, y, color, line as int),
            decreases chunks@.len() - line,
        {
            let matrix = chars_to_matrix(&chunks[line]);
            self.overlay(&matrix, origin, line, color);
            proof {
                overlay_writes_line(old(self)@, chars@, x, y, color, line as int);
            }
            line = line + 1;
        }
        proof {
            let done = written_lines(old(self)@, chars@, x, y, color, line as int);
            let all = written(old(self)@, chars@, x, y, color);
            assert forall|px: int, py: int| on_screen(px, py) implies #[trigger] done[px][py]
                == all[px][py] by {
                if text_pixel(chars@, x, y, px, py) {
                    let l = (py - y) / 8;
                    let k = (px - x) / 8;
                    assert(l * size < chars@.len()) by (nonlinear_arith)
                        requires
                            l * size + k < chars@.len(),
                            k >= 0,
                    ;
                    line_starts_in_text(chars@.len() as int, size, l);
                }
            }
            assert(done =~~= all);
        }
        self
    }

    /// Writes `text` from `origin` in `color`, as [`ScreenBuffer::write_chars`]
    /// does with its characters. The empty text changes nothing.
    pub fn write(&mut self, text: &str, origin: (usize, usize), color: bool) -> (out: &mut Self)
        ensures
            out@ == written(old(self)@, text@, origin.0 as int, origin.1 as int, color),
            *final(self) == *final(out),
    {
        let chars = chars_of(text);
        self.write_chars(&chars, origin, color)
    }
}

} // verus!
