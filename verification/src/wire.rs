//! The packed frame: the grid flattened by columns, cut after its last "on"
//! bit, and packed into bytes.

use crate::bits::{bits_held, bytes_for, packed, packed_then_unpacked, stream_bit, BitBuffer};
use crate::screen::{on_screen, ScreenBuffer, SCREEN_HEIGHT, SCREEN_WIDTH};
use vstd::prelude::*;

verus! {

/// Number of pixels of the display, which is the number of bits of a frame
/// before it is cut.
pub const FRAME_BITS: usize = 8192;

/// The most bytes that a packed frame can have.
pub const FRAME_BYTES: usize = 1024;

/// The place of pixel `(x, y)` in the flattened grid: the columns follow one
/// another, each from row 0 down.
pub open spec fn flat_index(x: int, y: int) -> int {
    x * SCREEN_HEIGHT + y
}

/// The pixels of `g` in column-major order: all rows of column 0, then all
/// rows of column 1, and so on.
pub open spec fn flat(g: Seq<Seq<bool>>) -> Seq<bool> {
    Seq::new(FRAME_BITS as nat, |i: int| g[i / (SCREEN_HEIGHT as int)][i % (SCREEN_HEIGHT as int)])
}

/// Number of bits that are kept of `bits`: the place of the last "on" bit
/// plus one, and 0 where no bit is on.
pub open spec fn kept_len(bits: Seq<bool>) -> nat
    decreases bits.len(),
{
    if bits.len() == 0 {
        0
    } else if bits.last() {
        bits.len()
    } else {
        kept_len(bits.drop_last())
    }
}

/// `bits` without what follows its last "on" bit; empty where no bit is on.
pub open spec fn trimmed(bits: Seq<bool>) -> Seq<bool> {
    bits.take(kept_len(bits) as int)
}

/// The bytes that carry the grid `g`.
pub open spec fn packed_frame(g: Seq<Seq<bool>>) -> Seq<u8> {
    packed(trimmed(flat(g)))
}

/// What [`kept_len`] is: it ends on an "on" bit, unless it is 0, and no bit
/// after it is on.
pub proof fn kept_len_ends_on_last_on_bit(bits: Seq<bool>)
    ensures
        kept_len(bits) <= bits.len(),
        kept_len(bits) > 0 ==> bits[kept_len(bits) - 1],
        forall|i: int| kept_len(bits) <= i < bits.len() ==> !bits[i],
    decreases bits.len(),
{
    if bits.len() > 0 && !bits.last() {
        let rest = bits.drop_last();
        kept_len_ends_on_last_on_bit(rest);
        assert forall|i: int| kept_len(bits) <= i < bits.len() implies !bits[i] by {
            if i < rest.len() {
                assert(rest[i] == bits[i]);
            }
        }
    }
}

/// A length that ends on an "on" bit with no "on" bit after it, or is 0
/// with no "on" bit at all, is the kept length.
pub proof fn kept_len_is_unique(bits: Seq<bool>, n: int)
    requires
        0 <= n <= bits.len(),
        n > 0 ==> bits[n - 1],
        forall|i: int| n <= i < bits.len() ==> !bits[i],
    ensures
        kept_len(bits) == n,
    decreases bits.len(),
{
    if bits.len() > 0 && !bits.last() {
        let rest = bits.drop_last();
        assert forall|i: int| n <= i < rest.len() implies !rest[i] by {
            assert(rest[i] == bits[i]);
        }
        kept_len_is_unique(rest, n);
    }
}

/// A grid with no "on" pixel is carried by no bytes at all.
pub proof fn blank_frame_is_empty(g: Seq<Seq<bool>>)
    requires
        forall|x: int, y: int| on_screen(x, y) ==> !(#[trigger] g[x][y]),
    ensures
        packed_frame(g) == Seq::<u8>::empty(),
{
    let bits = flat(g);
    assert forall|i: int| 0 <= i < bits.len() implies !bits[i] by {
        assert(on_screen(i / (SCREEN_HEIGHT as int), i % (SCREEN_HEIGHT as int)));
    }
    kept_len_is_unique(bits, 0);
    assert(packed_frame(g) =~= Seq::<u8>::empty());
}

/// A grid whose only "on" pixel is at `(x, y)` is carried by just the bytes
/// that reach bit `x * 64 + y`: that bit is set, and every other bit of
/// those bytes is zero.
pub proof fn single_pixel_frame(g: Seq<Seq<bool>>, x: int, y: int)
    requires
        on_screen(x, y),
        forall|px: int, py: int|
            on_screen(px, py) ==> (#[trigger] g[px][py]) == (px == x && py == y),
    ensures
        packed_frame(g).len() == (flat_index(x, y) + 1 + 7) / 8,
        forall|i: int|
            0 <= i < 8 * packed_frame(g).len() ==> #[trigger] stream_bit(packed_frame(g), i) == (i
                == flat_index(x, y)),
{
    let bits = flat(g);
    let at = flat_index(x, y);
    assert forall|i: int| 0 <= i < bits.len() implies bits[i] == (i == at) by {
        assert(on_screen(i / (SCREEN_HEIGHT as int), i % (SCREEN_HEIGHT as int)));
    }
    kept_len_is_unique(bits, at + 1);
    assert forall|i: int| 0 <= i < 8 * packed_frame(g).len() implies #[trigger] stream_bit(
        packed_frame(g),
        i,
    ) == (i == at) by {
        packed_then_unpacked(trimmed(bits), i);
    }
}

/// Flattens the buffer by columns into a bit buffer.
pub fn flatten(buf: &ScreenBuffer) -> (bits: BitBuffer)
    ensures
        bits_held(bits) == flat(buf@),
{
    let mut bits = BitBuffer::new();
    let mut x: usize = 0;
    while x < SCREEN_WIDTH
        invariant
            x <= SCREEN_WIDTH,
            bits_held(bits) == flat(buf@).take(x * SCREEN_HEIGHT),
        decreases SCREEN_WIDTH - x,
    {
        let mut y: usize = 0;
        while y < SCREEN_HEIGHT
            invariant
                x < SCREEN_WIDTH,
                y <= SCREEN_HEIGHT,
                bits_held(bits) == flat(buf@).take(x * SCREEN_HEIGHT + y),
            decreases SCREEN_HEIGHT - y,
        {
            let ghost before = bits_held(bits);
            bits.push(buf.get_pixel(x, y));
            assert(before.push(buf@[x as int][y as int]) =~= flat(buf@).take(
                x * SCREEN_HEIGHT + y + 1,
            ));
            y = y + 1;
        }
        x = x + 1;
    }
    assert(flat(buf@).take(FRAME_BITS as int) =~= flat(buf@));
    bits
}

/// Cuts a bit buffer after its last "on" bit. A buffer with no "on" bit
/// gives the empty buffer.
pub fn trim_bytes(x: BitBuffer) -> (kept: BitBuffer)
    ensures
        bits_held(kept) == trimmed(bits_held(x)),
{
    let mut n: usize = x.len();
    assert(bits_held(x).take(n as int) =~= bits_held(x));
    while n > 0 && !x.get(n - 1)
        invariant
            n <= bits_held(x).len(),
            kept_len(bits_held(x)) == kept_len(bits_held(x).take(n as int)),
        decreases n,
    {
        assert(bits_held(x).take(n as int).drop_last() =~= bits_held(x).take(n - 1));
        n = n - 1;
    }
    if n == 0 {
        let kept = BitBuffer::new();
        assert(bits_held(kept) =~= trimmed(bits_held(x)));
        kept
    } else {
        x.prefix(n - 1)
    }
}

/// The bytes that carry the buffer: its pixels by columns, cut after the
/// last "on" pixel, packed most significant bit first. A buffer with no
/// "on" pixel gives no bytes.
pub fn serialize(buf: &ScreenBuffer) -> (frame: Vec<u8>)
    ensures
        frame@ == packed_frame(buf@),
        frame@.len() == bytes_for(kept_len(flat(buf@))),
        frame@.len() <= FRAME_BYTES,
{
    proof {
        kept_len_ends_on_last_on_bit(flat(buf@));
    }
    let bits = flatten(buf);
    let kept = trim_bytes(bits);
    kept.into_vec()
}

} // verus!
