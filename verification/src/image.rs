//! Images on the grid, in the two encodings that a blob of bytes can have.

use crate::bits::{bit_limit, bit_of, bit_set, bits_held, stream_bit, BitBuffer};
use crate::screen::{
    clip_end, clipped_end, grid, in_rect, on_screen, rect_filled, ScreenBuffer, SCREEN_HEIGHT,
    SCREEN_WIDTH,
};
use vstd::prelude::*;

verus! {

broadcast use crate::screen::ScreenBuffer::view_is_grid;

/// How the bytes of an image are read. The two encodings are not two
/// spellings of one picture: a blob belongs to one of them.
#[derive(Clone, Copy, Debug)]
pub enum ImageFormat {
    /// The rows come in bands of eight. A band is one byte for each column;
    /// bit `r` of a byte (bit 0 the least significant) stands for row `r` of
    /// the band. A clear bit draws `color`, a set bit leaves the pixel as it
    /// is.
    ThresholdRowPacked { color: bool },
    /// The bytes are one run of bits, each byte from its most significant
    /// bit down, row after row. A bit is the value of its pixel, flipped
    /// where `invert` is set.
    ContinuousBitstream { invert: bool },
}

/// The bytes of an image with the size that they are said to have.
#[derive(Debug)]
pub struct ImageBlob {
    pub bytes: Vec<u8>,
    pub width: usize,
    pub height: usize,
}

/// The byte that holds pixel `(cx, cy)` of a row-packed image `resx` wide.
pub open spec fn row_packed_index(resx: int, cx: int, cy: int) -> int {
    cx + (cy / 8) * resx
}

/// Whether a row-packed image draws its pixel `(cx, cy)`: its bit is clear.
pub open spec fn row_packed_draws(bytes: Seq<u8>, resx: int, cx: int, cy: int) -> bool {
    !bit_set(bytes[row_packed_index(resx, cx, cy)], cy % 8)
}

/// Whether `len` bytes hold every pixel of a row-packed image of size
/// `resx` by `resy` that lands on the display when the image is drawn from
/// `(x, y)`.
pub open spec fn row_packed_fits(len: int, x: int, y: int, resx: int, resy: int) -> bool {
    forall|cx: int, cy: int|
        0 <= cx < resx && 0 <= cy < resy && on_screen(x + cx, y + cy)
            ==> #[trigger] row_packed_index(resx, cx, cy) < len
}

/// `g` with the row-packed image `bytes` of size `resx` by `resy` drawn
/// from `(x, y)`: a pixel whose bit is clear takes `color`, every other
/// pixel stays as it is.
pub open spec fn row_packed(
    g: Seq<Seq<bool>>,
    bytes: Seq<u8>,
    x: int,
    y: int,
    color: bool,
    resx: int,
    resy: int,
) -> Seq<Seq<bool>> {
    grid(
        |px: int, py: int|
            if in_rect(px, py, x, y, resx, resy) && row_packed_draws(bytes, resx, px - x, py - y) {
                color
            } else {
                g[px][py]
            },
    )
}

/// The place of pixel `(cx, cy)` in the bit stream of an image `resx` wide.
pub open spec fn bitstream_index(resx: int, cx: int, cy: int) -> int {
    cx + cy * resx
}

/// `g` with the bit-stream image `bytes` of size `resx` by `resy` drawn
/// from `(x, y)`: every pixel of the image takes the value of its bit,
/// flipped where `invert` is set; the pixels around it stay as they are.
pub open spec fn bitstream(
    g: Seq<Seq<bool>>,
    bytes: Seq<u8>,
    x: int,
    y: int,
    invert: bool,
    resx: int,
    resy: int,
) -> Seq<Seq<bool>> {
    grid(
        |px: int, py: int|
            if in_rect(px, py, x, y, resx, resy) {
                stream_bit(bytes, bitstream_index(resx, px - x, py - y)) != invert
            } else {
                g[px][py]
            },
    )
}

/// The place of a pixel in the bit stream lies before the end of the
/// image's bits.
pub proof fn bitstream_index_in_image(resx: int, resy: int, cx: int, cy: int)
    requires
        0 <= cx < resx,
        0 <= cy < resy,
    ensures
        0 <= bitstream_index(resx, cx, cy) < resx * resy,
{
    assert(0 <= cx + cy * resx < resx * resy) by (nonlinear_arith)
        requires
            0 <= cx < resx,
            0 <= cy < resy,
    ;
}

/// Bytes for every band of a row-packed image are enough, wherever the
/// image is drawn.
pub proof fn whole_image_fits(len: int, x: int, y: int, resx: int, resy: int)
    requires
        resx * ((resy + 7) / 8) <= len,
    ensures
        row_packed_fits(len, x, y, resx, resy),
{
    assert forall|cx: int, cy: int|
        0 <= cx < resx && 0 <= cy < resy && on_screen(x + cx, y + cy)
        implies #[trigger] row_packed_index(resx, cx, cy) < len by {
        let band = cy / 8;
        let bands = (resy + 7) / 8;
        assert(band < bands);
        assert(cx + band * resx < resx * bands) by (nonlinear_arith)
            requires
                0 <= cx < resx,
                0 <= band < bands,
        ;
    }
}

/// Whether `len` bytes are enough for an image of size `resx` by `resy` in
/// `format`, drawn from `(x, y)`: a row-packed image needs the bytes of the
/// pixels that land on the display, a bit stream one bit for every pixel
/// and no more bits than a bit buffer can hold.
pub open spec fn image_fits(
    format: ImageFormat,
    len: int,
    x: int,
    y: int,
    resx: int,
    resy: int,
) -> bool {
    match format {
        ImageFormat::ThresholdRowPacked { color } => row_packed_fits(len, x, y, resx, resy),
        ImageFormat::ContinuousBitstream { invert } => resx * resy <= 8 * len <= bit_limit(),
    }
}

/// `g` with the image `bytes` of size `resx` by `resy` drawn from `(x, y)`
/// as `format` reads it.
pub open spec fn image_drawn(
    g: Seq<Seq<bool>>,
    format: ImageFormat,
    bytes: Seq<u8>,
    x: int,
    y: int,
    resx: int,
    resy: int,
) -> Seq<Seq<bool>> {
    match format {
        ImageFormat::ThresholdRowPacked { color } => {
            row_packed(g, bytes, x, y, color, resx, resy)
        },
        ImageFormat::ContinuousBitstream { invert } => {
            bitstream(g, bytes, x, y, invert, resx, resy)
        },
    }
}

/// No bit of the byte 0 is set.
proof fn zero_byte_has_no_bit(k: u8)
    by (bit_vector)
    requires
        k < 8,
    ensures
        (0u8 >> k) & 1u8 != 1u8,
{
}

/// A row-packed image of zero bytes draws every pixel of its rectangle: it
/// is the rectangle filled with `color`.
pub proof fn zero_row_packed_fills(
    g: Seq<Seq<bool>>,
    bytes: Seq<u8>,
    x: int,
    y: int,
    color: bool,
    resx: int,
    resy: int,
)
    requires
        row_packed_fits(bytes.len() as int, x, y, resx, resy),
        forall|i: int| 0 <= i < bytes.len() ==> bytes[i] == 0,
    ensures
        row_packed(g, bytes, x, y, color, resx, resy) == rect_filled(g, x, y, resx, resy, color),
{
    let drawn = row_packed(g, bytes, x, y, color, resx, resy);
    let filled = rect_filled(g, x, y, resx, resy, color);
    assert forall|px: int, py: int| on_screen(px, py) implies #[trigger] drawn[px][py]
        == filled[px][py] by {
        if in_rect(px, py, x, y, resx, resy) {
            let cx = px - x;
            let cy = py - y;
            let at = row_packed_index(resx, cx, cy);
            assert(at < bytes.len());
            assert(0 <= at) by (nonlinear_arith)
                requires
                    at == cx + (cy / 8) * resx,
                    0 <= cx,
                    0 <= cy / 8,
                    0 <= resx,
            ;
            zero_byte_has_no_bit((cy % 8) as u8);
        }
    }
    assert(drawn =~~= filled);
}

/// A bit-stream image of zero bytes turns every pixel of its rectangle off,
/// and on where it is drawn inverted: it is the rectangle filled with
/// `invert`.
pub proof fn zero_bitstream_fills(
    g: Seq<Seq<bool>>,
    bytes: Seq<u8>,
    x: int,
    y: int,
    invert: bool,
    resx: int,
    resy: int,
)
    requires
        resx * resy <= 8 * bytes.len(),
        forall|i: int| 0 <= i < bytes.len() ==> bytes[i] == 0,
    ensures
        bitstream(g, bytes, x, y, invert, resx, resy) == rect_filled(g, x, y, resx, resy, invert),
{
    let drawn = bitstream(g, bytes, x, y, invert, resx, resy);
    let filled = rect_filled(g, x, y, resx, resy, invert);
    assert forall|px: int, py: int| on_screen(px, py) implies #[trigger] drawn[px][py]
        == filled[px][py] by {
        if in_rect(px, py, x, y, resx, resy) {
            let at = bitstream_index(resx, px - x, py - y);
            bitstream_index_in_image(resx, resy, px - x, py - y);
            assert(bytes[at / 8] == 0);
            zero_byte_has_no_bit((7 - at % 8) as u8);
        }
    }
    assert(drawn =~~= filled);
}

impl ScreenBuffer {
    /// Draws the image `blob` from `origin` as `format` reads its bytes.
    pub fn draw_image(
        &mut self,
        blob: ImageBlob,
        origin: (usize, usize),
        format: ImageFormat,
    ) -> (out: &mut Self)
        requires
            image_fits(
                format,
                blob.bytes@.len() as int,
                origin.0 as int,
                origin.1 as int,
                blob.width as int,
                blob.height as int,
            ),
        ensures
            out@ == image_drawn(
                old(self)@,
                format,
                blob.bytes@,
                origin.0 as int,
                origin.1 as int,
                blob.width as int,
                blob.height as int,
            ),
            *final(self) == *final(out),
    {
        let res: (usize, usize) = (blob.width, blob.height);
        match format {
            ImageFormat::ThresholdRowPacked { color } => {
                self.write_img_row_packed(blob.bytes, origin, color, res)
            },
            ImageFormat::ContinuousBitstream { invert } => {
                self.write_img(blob.bytes, origin, invert, res)
            },
        }
    }
    /// Draws the row-packed image `file` of size `res` from `origin`: where
    /// the image has a clear bit the pixel takes `color`. What falls off
    /// the display is skipped. `file` must hold the byte of every pixel that
    /// lands on the display.
    pub fn write_img_row_packed(
        &mut self,
        file: Vec<u8>,
        origin: (usize, usize),
        color: bool,
        res: (usize, usize),
    ) -> (out: &mut Self)
        requires
            row_packed_fits(
                file@.len() as int,
                origin.0 as int,
                origin.1 as int,
                res.0 as int,
                res.1 as int,
            ),
        ensures
            out@ == row_packed(
                old(self)@,
                file@,
                origin.0 as int,
                origin.1 as int,
                color,
                res.0 as int,
                res.1 as int,
            ),
            *final(self) == *final(out),
    {
        let x: usize = origin.0;
        let y: usize = origin.1;
        let resx: usize = res.0;
        let x_end: usize = clip_end(x, resx, SCREEN_WIDTH);
        let y_end: usize = clip_end(y, res.1, SCREEN_HEIGHT);
        let mut py: usize = y;
        while py < y_end
            invariant
                y <= py <= y_end,
                x_end == clipped_end(x as int, resx as int, SCREEN_WIDTH as int),
                y_end == clipped_end(y as int, res.1 as int, SCREEN_HEIGHT as int),
                row_packed_fits(file@.len() as int, x as int, y as int, resx as int, res.1 as int),
                forall|qx: int, qy: int|
                    on_screen(qx, qy) ==> #[trigger] self@[qx][qy] == (if x <= qx < x_end && y <= qy
                        < py && row_packed_draws(file@, resx as int, qx - x, qy - y) {
                        color
                    } else {
                        old(self)@[qx][qy]
                    }),
            decreases y_end - py,
        {
            let cy: usize = py - y;
            let bit: u8 = (cy % 8) as u8;
            let mut px: usize = x;
            while px < x_end
                invariant
                    y <= py < y_end,
                    x <= px <= x_end,
                    cy == py - y,
                    bit == cy % 8,
                    x_end == clipped_end(x as int, resx as int, SCREEN_WIDTH as int),
                    y_end == clipped_end(y as int, res.1 as int, SCREEN_HEIGHT as int),
                    row_packed_fits(
                        file@.len() as int,
                        x as int,
                        y as int,
                        resx as int,
                        res.1 as int,
                    ),
                    forall|qx: int, qy: int|
                        on_screen(qx, qy) ==> #[trigger] self@[qx][qy] == (if x <= qx < x_end && (y
                            <= qy < py || (qy == py && qx < px)) && row_packed_draws(
                            file@,
                            resx as int,
                            qx - x,
                            qy - y,
                        ) {
                            color
                        } else {
                            old(self)@[qx][qy]
                        }),
                decreases x_end - px,
            {
                let cx: usize = px - x;
                let band: usize = cy / 8;
                assert(on_screen(x + cx, y + cy));
                assert(row_packed_index(resx as int, cx as int, cy as int) < file@.len());
                assert(0 <= band * resx) by (nonlinear_arith)
                    requires
                        band >= 0,
                        resx >= 0,
                ;
                assert(cx + band * resx == row_packed_index(resx as int, cx as int, cy as int));
                assert(file@.len() == file.len());
                let byte: u8 = file[cx + band * resx];
                if !bit_of(byte, bit) {
                    self.draw_pixel((px, py), color);
                }
                px = px + 1;
            }
            py = py + 1;
        }
        assert(self@ =~~= row_packed(
            old(self)@,
            file@,
            x as int,
            y as int,
            color,
            resx as int,
            res.1 as int,
        ));
        self
    }

    /// Draws the bit-stream image `file` of size `res` from `origin`: every
    /// pixel of the image takes the value of its bit, flipped where `invert`
    /// is set. What falls off the display is skipped. `file` must hold a bit
    /// for every pixel of the image.
    pub fn write_img(
        &mut self,
        file: Vec<u8>,
        origin: (usize, usize),
        invert: bool,
        res: (usize, usize),
    ) -> (out: &mut Self)
        requires
            res.0 * res.1 <= 8 * file@.len(),
            8 * file@.len() <= bit_limit(),
        ensures
            out@ == bitstream(
                old(self)@,
                file@,
                origin.0 as int,
                origin.1 as int,
                invert,
                res.0 as int,
                res.1 as int,
            ),
            *final(self) == *final(out),
    {
        let x: usize = origin.0;
        let y: usize = origin.1;
        let resx: usize = res.0;
        let resy: usize = res.1;
        let ghost bytes = file@;
        let bits = BitBuffer::from_vec(file);
        let x_end: usize = clip_end(x, resx, SCREEN_WIDTH);
        let y_end: usize = clip_end(y, resy, SCREEN_HEIGHT);
        let mut py: usize = y;
        while py < y_end
            invariant
                y <= py <= y_end,
                x_end == clipped_end(x as int, resx as int, SCREEN_WIDTH as int),
                y_end == clipped_end(y as int, resy as int, SCREEN_HEIGHT as int),
                resx * resy <= 8 * bytes.len() <= bit_limit(),
                bits_held(bits) == crate::bits::unpacked(bytes),
                forall|qx: int, qy: int|
                    on_screen(qx, qy) ==> #[trigger] self@[qx][qy] == (if x <= qx < x_end && y <= qy
                        < py {
                        stream_bit(bytes, bitstream_index(resx as int, qx - x, qy - y)) != invert
                    } else {
                        old(self)@[qx][qy]
                    }),
            decreases y_end - py,
        {
            let cy: usize = py - y;
            let mut px: usize = x;
            while px < x_end
                invariant
                    y <= py < y_end,
                    x <= px <= x_end,
                    cy == py - y,
                    x_end == clipped_end(x as int, resx as int, SCREEN_WIDTH as int),
                    y_end == clipped_end(y as int, resy as int, SCREEN_HEIGHT as int),
                    resx * resy <= 8 * bytes.len() <= bit_limit(),
                    bits_held(bits) == crate::bits::unpacked(bytes),
                    forall|qx: int, qy: int|
                        on_screen(qx, qy) ==> #[trigger] self@[qx][qy] == (if x <= qx < x_end && (y
                            <= qy < py || (qy == py && qx < px)) {
                            stream_bit(bytes, bitstream_index(resx as int, qx - x, qy - y))
                                != invert
                        } else {
                            old(self)@[qx][qy]
                        }),
                decreases x_end - px,
            {
                let cx: usize = px - x;
                proof {
                    bitstream_index_in_image(resx as int, resy as int, cx as int, cy as int);
                    assert(cy * resx >= 0) by (nonlinear_arith)
                        requires
                            cy >= 0,
                            resx >= 0,
                    ;
                }
                let val: bool = bits.get(cx + cy * resx);
                if invert {
                    self.draw_pixel((px, py), !val);
                } else {
                    self.draw_pixel((px, py), val);
                }
                px = px + 1;
            }
            py = py + 1;
        }
        assert(self@ =~~= bitstream(
            old(self)@,
            bytes,
            x as int,
            y as int,
            invert,
            resx as int,
            resy as int,
        ));
        self
    }
}

} // verus!
