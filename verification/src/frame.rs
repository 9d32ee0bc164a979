//! One whole frame: the frame number as text, the indicator bits, and the
//! image of that frame, composed on a fresh buffer and packed.

use crate::bits::{bit_limit, bit_of, bit_set};
use crate::font::chars_of;
use crate::image::bitstream;
use crate::screen::{blank, grid, on_screen, ScreenBuffer};
use crate::text::written;
use crate::wire::{packed_frame, serialize, FRAME_BYTES};
use vstd::prelude::*;

verus! {

broadcast use crate::screen::ScreenBuffer::view_is_grid;

/// Column of the left edge of the image in a frame.
pub const IMAGE_X: usize = 40;

/// Row of the top edge of the image in a frame.
pub const IMAGE_Y: usize = 0;

/// Width of the image in a frame.
pub const IMAGE_WIDTH: usize = 88;

/// Height of the image in a frame.
pub const IMAGE_HEIGHT: usize = 64;

/// Number of bytes of the image of a frame: one bit for each pixel.
pub const IMAGE_BYTES: usize = 704;

/// Row in which the indicator bits are shown.
pub const INDICATOR_ROW: usize = 8;

/// The frame that is shown at request `counter`: 3.5 times the counter,
/// rounded to the nearest whole number, a half rounding up.
pub open spec fn frame_of(counter: nat) -> nat {
    (7 * counter + 1) / 2
}

/// The frame number is 3.5 times the counter where that is whole, and half
/// a frame more where it is not.
pub proof fn frame_rounds_half_up(counter: nat)
    ensures
        2 * frame_of(counter) == 7 * counter + counter % 2,
{
}

/// The character of the decimal digit `d`.
pub open spec fn digit_char(d: int) -> char {
    ((48 + d) as u8) as char
}

/// `n` written in decimal, without leading zeros.
pub open spec fn decimal(n: nat) -> Seq<char>
    decreases n,
{
    if n < 10 {
        seq![digit_char(n as int)]
    } else {
        decimal(n / 10).push(digit_char((n % 10) as int))
    }
}

/// Whether `c` is one of the digits `0` to `9`.
pub open spec fn is_digit(c: char) -> bool {
    48 <= c as u32 <= 57
}

/// The number that the digits `s` spell in decimal.
pub open spec fn digits_value(s: Seq<char>) -> int
    decreases s.len(),
{
    if s.len() == 0 {
        0
    } else {
        10 * digits_value(s.drop_last()) + (s.last() as u32 - 48)
    }
}

/// `s` without the `+` that may stand before a number.
pub open spec fn unsigned_part(s: Seq<char>) -> Seq<char> {
    if s.len() > 0 && s[0] == '+' {
        s.drop_first()
    } else {
        s
    }
}

/// The indicator value that `s` spells: a number from 0 to 255 in decimal
/// digits, with or without a `+` before it. Anything else spells none.
pub open spec fn indicator_of(s: Seq<char>) -> Option<u8> {
    let digits = unsigned_part(s);
    if digits.len() > 0 && (forall|i: int| 0 <= i < digits.len() ==> is_digit(#[trigger] digits[i]))
        && digits_value(digits) <= 255 {
        Some(digits_value(digits) as u8)
    } else {
        None
    }
}

/// `g` with the eight bits of `value` shown in row 8: the pixel in column
/// `k` is on when bit `k` of `value` (bit 0 the least significant) is 0.
pub open spec fn indicator_drawn(g: Seq<Seq<bool>>, value: u8) -> Seq<Seq<bool>> {
    grid(
        |px: int, py: int|
            if py == INDICATOR_ROW && 0 <= px < 8 {
                !bit_set(value, px)
            } else {
                g[px][py]
            },
    )
}

/// The grid of the frame for request `counter`: on a blank grid, the frame
/// number in the top left corner; then the indicator bits, where there is
/// an indicator; then the image, where there is one.
pub open spec fn composed(
    counter: nat,
    indicator: Option<u8>,
    image: Option<Seq<u8>>,
) -> Seq<Seq<bool>> {
    let numbered = written(blank(), decimal(frame_of(counter)), 0, 0, true);
    let marked = match indicator {
        Some(value) => indicator_drawn(numbered, value),
        None => numbered,
    };
    match image {
        Some(bytes) => bitstream(
            marked,
            bytes,
            IMAGE_X as int,
            IMAGE_Y as int,
            false,
            IMAGE_WIDTH as int,
            IMAGE_HEIGHT as int,
        ),
        None => marked,
    }
}

/// The bytes of an image that may be missing.
pub open spec fn image_bytes(image: Option<Vec<u8>>) -> Option<Seq<u8>> {
    match image {
        Some(bytes) => Some(bytes@),
        None => None,
    }
}

/// Whether an image that may be missing has the bytes of a whole frame
/// image, and no more than a bit buffer can hold.
pub open spec fn image_is_whole(image: Option<Vec<u8>>) -> bool {
    match image {
        Some(bytes) => IMAGE_BYTES <= bytes@.len() && 8 * bytes@.len() <= bit_limit(),
        None => true,
    }
}

/// The indicator that the text of a request spells, where it has one.
pub open spec fn indicator_in(b: Option<&str>) -> Option<u8> {
    match b {
        Some(text) => indicator_of(text@),
        None => None,
    }
}

/// The frame that is shown at request `counter`.
pub fn frame_index(counter: usize) -> (frame: usize)
    requires
        frame_of(counter as nat) <= usize::MAX,
    ensures
        frame == frame_of(counter as nat),
{
    let half: usize = counter / 2;
    let odd: usize = counter % 2;
    3 * counter + half + odd
}

/// `n` written in decimal, without leading zeros.
pub fn decimal_chars(n: usize) -> (chars: Vec<char>)
    ensures
        chars@ == decimal(n as nat),
    decreases n,
{
    let digit: char = (48u8 + (n % 10) as u8) as char;
    if n < 10 {
        let mut chars: Vec<char> = Vec::new();
        chars.push(digit);
        assert(chars@ =~= seq![digit_char(n as int)]);
        chars
    } else {
        let mut chars = decimal_chars(n / 10);
        chars.push(digit);
        chars
    }
}

/// Reads an indicator value: a number from 0 to 255 in decimal digits, with
/// or without a `+` before it. Any other text gives `None`.
pub fn parse_indicator(text: &str) -> (value: Option<u8>)
    ensures
        value == indicator_of(text@),
{
    let chars = chars_of(text);
    let start: usize = if chars.len() > 0 && chars[0] == '+' {
        1
    } else {
        0
    };
    let ghost digits = unsigned_part(chars@);
    assert(digits =~= chars@.subrange(start as int, chars@.len() as int));
    if start == chars.len() {
        return None;
    }
    let mut capped: u16 = 0;
    let mut i: usize = start;
    while i < chars.len()
        invariant
            start <= i <= chars@.len(),
            digits == chars@.subrange(start as int, chars@.len() as int),
            digits == unsigned_part(text@),
            forall|j: int| 0 <= j < i - start ==> is_digit(#[trigger] digits[j]),
            capped <= 256,
            capped == if digits_value(digits.take(i - start)) < 256 {
                digits_value(digits.take(i - start))
            } else {
                256
            },
        decreases chars@.len() - i,
    {
        let code: u32 = chars[i] as u32;
        if code < 48 || code > 57 {
            assert(!is_digit(digits[i - start]));
            return None;
        }
        let d: u16 = (code - 48) as u16;
        assert(digits.take(i - start + 1).drop_last() =~= digits.take(i - start));
        let next: u16 = capped * 10 + d;
        capped = if next > 255 {
            256
        } else {
            next
        };
        i = i + 1;
    }
    assert(digits.take(i - start) =~= digits);
    if capped > 255 {
        None
    } else {
        Some(capped as u8)
    }
}

impl ScreenBuffer {
    /// Shows the eight bits of `value` in row 8, bit `k` in column `k`: a
    /// pixel is on when its bit is 0.
    pub fn draw_indicator(&mut self, value: u8) -> (out: &mut Self)
        ensures
            out@ == indicator_drawn(old(self)@, value),
            *final(self) == *final(out),
    {
        let mut k: u8 = 0;
        while k < 8
            invariant
                k <= 8,
                forall|qx: int, qy: int|
                    on_screen(qx, qy) ==> #[trigger] self@[qx][qy] == (if qy == INDICATOR_ROW && 0
                        <= qx < k {
                        !bit_set(value, qx)
                    } else {
                        old(self)@[qx][qy]
                    }),
            decreases 8 - k,
        {
            let bit: bool = bit_of(value, k);
            self.draw_pixel((k as usize, INDICATOR_ROW), !bit);
            k = k + 1;
        }
        assert(self@ =~~= indicator_drawn(old(self)@, value));
        self
    }
}

/// Composes the frame for request `counter` on a fresh buffer: the frame
/// number, the indicator where there is one, the image where there is one.
pub fn compose_frame(
    counter: usize,
    indicator: Option<u8>,
    image: Option<Vec<u8>>,
) -> (buf: ScreenBuffer)
    requires
        frame_of(counter as nat) <= usize::MAX,
        image_is_whole(image),
    ensures
        buf@ == composed(counter as nat, indicator, image_bytes(image)),
{
    let mut buf = ScreenBuffer::new();
    let frame: usize = frame_index(counter);
    let number = decimal_chars(frame);
    buf.write_chars(&number, (0, 0), true);
    match indicator {
        Some(value) => {
            buf.draw_indicator(value);
        },
        None => {},
    }
    match image {
        Some(bytes) => {
            buf.write_img(bytes, (IMAGE_X, IMAGE_Y), false, (IMAGE_WIDTH, IMAGE_HEIGHT));
        },
        None => {},
    }
    buf
}

/// The packed frame for request `counter`. `b` is the indicator as the
/// request spells it; a text that spells no indicator is passed over. A
/// missing image leaves its part of the frame as it is.
pub fn update_screen(counter: usize, b: Option<&str>, image: Option<Vec<u8>>) -> (frame: Vec<u8>)
    requires
        frame_of(counter as nat) <= usize::MAX,
        image_is_whole(image),
    ensures
        frame@ == packed_frame(composed(counter as nat, indicator_in(b), image_bytes(image))),
        frame@.len() <= FRAME_BYTES,
{
    let indicator: Option<u8> = match b {
        Some(text) => parse_indicator(text),
        None => None,
    };
    let buf = compose_frame(counter, indicator, image);
    serialize(&buf)
}

} // verus!
