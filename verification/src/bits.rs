//! Bits and bytes: how a byte is read as eight bits, how a run of bits packs
//! into bytes, and the bit buffer that does the packing.

use bitvec::order::Msb0;
use bitvec::vec::BitVec;
use vstd::prelude::*;

verus! {

/// Whether bit `k` of `byte` is set, bit 0 being the least significant.
pub open spec fn bit_set(byte: u8, k: int) -> bool {
    (byte >> (k as u8)) & 1u8 == 1u8
}

/// Whether bit `k` of `byte` is set, bit 0 being the most significant.
pub open spec fn msb_bit(byte: u8, k: int) -> bool {
    bit_set(byte, 7 - k)
}

/// Bit `i` of `bytes` read as one run of bits, each byte from its most
/// significant bit down.
pub open spec fn stream_bit(bytes: Seq<u8>, i: int) -> bool {
    msb_bit(bytes[i / 8], i % 8)
}

/// The bits of `bytes`, each byte from its most significant bit down.
pub open spec fn unpacked(bytes: Seq<u8>) -> Seq<bool> {
    Seq::new(8 * bytes.len(), |i: int| stream_bit(bytes, i))
}

/// Bit `i` of `bits`, and off past their end.
pub open spec fn bit_or_off(bits: Seq<bool>, i: int) -> bool {
    0 <= i < bits.len() && bits[i]
}

/// `w` for a bit that is on, 0 for one that is off.
pub open spec fn weigh(bit: bool, w: int) -> int {
    if bit {
        w
    } else {
        0
    }
}

/// Byte `j` of the packing of `bits`: bits `8 * j` to `8 * j + 7`, the first
/// of them in the most significant place, with off bits past the end.
pub open spec fn packed_byte(bits: Seq<bool>, j: int) -> u8 {
    (weigh(bit_or_off(bits, 8 * j), 128) + weigh(bit_or_off(bits, 8 * j + 1), 64) + weigh(
        bit_or_off(bits, 8 * j + 2),
        32,
    ) + weigh(bit_or_off(bits, 8 * j + 3), 16) + weigh(bit_or_off(bits, 8 * j + 4), 8) + weigh(
        bit_or_off(bits, 8 * j + 5),
        4,
    ) + weigh(bit_or_off(bits, 8 * j + 6), 2) + weigh(bit_or_off(bits, 8 * j + 7), 1)) as u8
}

/// Number of bytes that hold `n` bits.
pub open spec fn bytes_for(n: nat) -> nat {
    ((n + 7) / 8) as nat
}

/// `bits` packed into bytes, most significant bit first; the unused low bits
/// of the last byte are zero.
pub open spec fn packed(bits: Seq<bool>) -> Seq<u8> {
    Seq::new(bytes_for(bits.len()), |j: int| packed_byte(bits, j))
}

/// Reads bit `k` of `byte`, bit 0 being the least significant.
pub fn bit_of(byte: u8, k: u8) -> (bit: bool)
    requires
        k < 8,
    ensures
        bit == bit_set(byte, k as int),
{
    (byte >> k) & 1u8 == 1u8
}

/// A byte made of eight weighted bits gives each of them back: bit `k` from
/// the top is on exactly when the weight `128 >> k` was added.
proof fn weights_are_bits(w0: u8, w1: u8, w2: u8, w3: u8, w4: u8, w5: u8, w6: u8, w7: u8)
    by (bit_vector)
    requires
        w0 == 0 || w0 == 128,
        w1 == 0 || w1 == 64,
        w2 == 0 || w2 == 32,
        w3 == 0 || w3 == 16,
        w4 == 0 || w4 == 8,
        w5 == 0 || w5 == 4,
        w6 == 0 || w6 == 2,
        w7 == 0 || w7 == 1,
    ensures
        w0 + w1 + w2 + w3 + w4 + w5 + w6 + w7 < 256,
        (((w0 + w1 + w2 + w3 + w4 + w5 + w6 + w7) as u8 >> 7u8) & 1u8 == 1u8) == (w0 == 128),
        (((w0 + w1 + w2 + w3 + w4 + w5 + w6 + w7) as u8 >> 6u8) & 1u8 == 1u8) == (w1 == 64),
        (((w0 + w1 + w2 + w3 + w4 + w5 + w6 + w7) as u8 >> 5u8) & 1u8 == 1u8) == (w2 == 32),
        (((w0 + w1 + w2 + w3 + w4 + w5 + w6 + w7) as u8 >> 4u8) & 1u8 == 1u8) == (w3 == 16),
        (((w0 + w1 + w2 + w3 + w4 + w5 + w6 + w7) as u8 >> 3u8) & 1u8 == 1u8) == (w4 == 8),
        (((w0 + w1 + w2 + w3 + w4 + w5 + w6 + w7) as u8 >> 2u8) & 1u8 == 1u8) == (w5 == 4),
        (((w0 + w1 + w2 + w3 + w4 + w5 + w6 + w7) as u8 >> 1u8) & 1u8 == 1u8) == (w6 == 2),
        (((w0 + w1 + w2 + w3 + w4 + w5 + w6 + w7) as u8 >> 0u8) & 1u8 == 1u8) == (w7 == 1),
{
}

/// Unpacking what was packed gives the bits back, followed by off bits up to
/// the end of the last byte.
pub proof fn packed_then_unpacked(bits: Seq<bool>, i: int)
    requires
        0 <= i < 8 * packed(bits).len(),
    ensures
        unpacked(packed(bits))[i] == bit_or_off(bits, i),
        stream_bit(packed(bits), i) == bit_or_off(bits, i),
{
    let j = i / 8;
    let k = i % 8;
    let w0 = weigh(bit_or_off(bits, 8 * j), 128) as u8;
    let w1 = weigh(bit_or_off(bits, 8 * j + 1), 64) as u8;
    let w2 = weigh(bit_or_off(bits, 8 * j + 2), 32) as u8;
    let w3 = weigh(bit_or_off(bits, 8 * j + 3), 16) as u8;
    let w4 = weigh(bit_or_off(bits, 8 * j + 4), 8) as u8;
    let w5 = weigh(bit_or_off(bits, 8 * j + 5), 4) as u8;
    let w6 = weigh(bit_or_off(bits, 8 * j + 6), 2) as u8;
    let w7 = weigh(bit_or_off(bits, 8 * j + 7), 1) as u8;
    weights_are_bits(w0, w1, w2, w3, w4, w5, w6, w7);
    assert(packed(bits)[j] == (w0 + w1 + w2 + w3 + w4 + w5 + w6 + w7) as u8);
}

/// A growable run of bits that the `bitvec` crate keeps in bytes, most
/// significant bit first (`BitVec<u8, Msb0>`).
///
/// The verifier does not look inside: what it knows of a buffer is what the
/// functions below state about [`bits_held`]. A buffer is only ever made by
/// [`BitBuffer::new`], [`BitBuffer::from_vec`] and [`BitBuffer::prefix`] and
/// grown by [`BitBuffer::push`], so its first bit is the top bit of its first
/// byte and the bits of its last byte that it does not use are zero.
#[verifier::external_body]
pub struct BitBuffer {
    bits: BitVec<u8, Msb0>,
}

/// The bits that a buffer holds, in order.
pub uninterp spec fn bits_held(buffer: BitBuffer) -> Seq<bool>;

/// The most bits that a buffer can hold: `bitvec` keeps three bits of the
/// length word for itself.
pub open spec fn bit_limit() -> int {
    (usize::MAX / 8) as int
}

impl BitBuffer {
    /// `BitVec::new`: a buffer that holds no bits.
    #[verifier::external_body]
    pub(crate) fn new() -> (buffer: BitBuffer)
        ensures
            bits_held(buffer) == Seq::<bool>::empty(),
    {
        BitBuffer { bits: BitVec::new() }
    }

    /// `BitVec::from_vec`: the buffer over the bits of `bytes`, bit `i` being
    /// bit `i % 8` from the top of byte `i / 8`. `bitvec` panics on more bits
    /// than [`bit_limit`], which the precondition leaves out.
    #[verifier::external_body]
    pub(crate) fn from_vec(bytes: Vec<u8>) -> (buffer: BitBuffer)
        requires
            8 * bytes.len() <= bit_limit(),
        ensures
            bits_held(buffer) == unpacked(bytes@),
    {
        BitBuffer { bits: BitVec::from_vec(bytes) }
    }

    /// `BitSlice::len`: the number of bits held.
    #[verifier::external_body]
    pub(crate) fn len(&self) -> (n: usize)
        ensures
            n == bits_held(*self).len(),
    {
        self.bits.len()
    }

    /// Indexing a `BitVec` by position: bit `i`. `bitvec` panics on an index
    /// past the end, which the precondition leaves out.
    #[verifier::external_body]
    pub(crate) fn get(&self, i: usize) -> (bit: bool)
        requires
            i < bits_held(*self).len(),
        ensures
            bit == bits_held(*self)[i as int],
    {
        self.bits[i]
    }

    /// `BitVec::push`: appends one bit. `bitvec` panics when the new length
    /// would pass [`bit_limit`], which the precondition leaves out.
    #[verifier::external_body]
    pub(crate) fn push(&mut self, bit: bool)
        requires
            bits_held(*old(self)).len() < bit_limit(),
        ensures
            bits_held(*final(self)) == bits_held(*old(self)).push(bit),
    {
        self.bits.push(bit)
    }

    /// Indexing a `BitVec` by `0..=to` and `BitVec::from` on the slice: a new
    /// buffer with bits 0 to `to` of this one. `bitvec` panics on a `to` past
    /// the end, which the precondition leaves out; it zeroes the bits of the
    /// last byte that the copy does not use.
    #[verifier::external_body]
    pub(crate) fn prefix(&self, to: usize) -> (buffer: BitBuffer)
        requires
            to < bits_held(*self).len(),
        ensures
            bits_held(buffer) == bits_held(*self).take(to + 1),
    {
        BitBuffer { bits: self.bits[0..=to].into() }
    }

    /// `BitVec::into_vec`: the bytes that store the bits, which for a buffer
    /// made as the type says are the bits packed most significant bit first
    /// with zeros in the unused places of the last byte.
    #[verifier::external_body]
    pub(crate) fn into_vec(self) -> (bytes: Vec<u8>)
        ensures
            bytes@ == packed(bits_held(self)),
    {
        self.bits.into_vec()
    }

    /// The buffer that holds `bits`, in their order.
    pub fn from_bools(bits: &Vec<bool>) -> (buffer: BitBuffer)
        requires
            bits.len() <= bit_limit(),
        ensures
            bits_held(buffer) == bits@,
    {
        let mut buffer = BitBuffer::new();
        let mut i: usize = 0;
        while i < bits.len()
            invariant
                i <= bits.len() <= bit_limit(),
                bits_held(buffer) == bits@.take(i as int),
            decreases bits.len() - i,
        {
            buffer.push(bits[i]);
            assert(bits@.take(i as int).push(bits@[i as int]) =~= bits@.take(i + 1));
            i = i + 1;
        }
        assert(bits@.take(i as int) =~= bits@);
        buffer
    }

    /// The bits held, one `bool` each.
    pub fn to_bools(&self) -> (bits: Vec<bool>)
        ensures
            bits@ == bits_held(*self),
    {
        let n: usize = self.len();
        let mut bits: Vec<bool> = Vec::new();
        let mut i: usize = 0;
        while i < n
            invariant
                i <= n == bits_held(*self).len(),
                bits@ == bits_held(*self).take(i as int),
            decreases n - i,
        {
            bits.push(self.get(i));
            assert(bits_held(*self).take(i as int).push(bits_held(*self)[i as int])
                =~= bits_held(*self).take(i + 1));
            i = i + 1;
        }
        assert(bits_held(*self).take(i as int) =~= bits_held(*self));
        bits
    }
}

} // verus!
