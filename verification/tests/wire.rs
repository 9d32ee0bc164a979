use mono_frame::bits::{bit_of, BitBuffer};
use mono_frame::screen::ScreenBuffer;
use mono_frame::wire::{flatten, serialize, trim_bytes, FRAME_BITS, FRAME_BYTES};

#[test]
fn frame_sizes() {
    assert_eq!(FRAME_BITS, 128 * 64);
    assert_eq!(FRAME_BYTES, 1024);
}

#[test]
fn bit_of_counts_from_the_least_significant_bit() {
    assert!(bit_of(0b0000_0001, 0));
    assert!(!bit_of(0b0000_0001, 1));
    assert!(bit_of(0b1000_0000, 7));
    assert!(!bit_of(0b0111_1111, 7));
    assert!(bit_of(0x33, 4));
    assert!(!bit_of(0x33, 2));
}

#[test]
fn bit_buffer_keeps_bools_in_order() {
    let bits = vec![true, false, false, true, true, false, true, false, true, true];
    let buffer = BitBuffer::from_bools(&bits);
    assert_eq!(buffer.to_bools(), bits);
    assert_eq!(BitBuffer::from_bools(&Vec::new()).to_bools(), Vec::<bool>::new());
}

#[test]
fn trim_bytes_cuts_after_the_last_on_bit() {
    let bits = vec![false, true, false, true, false, false, false, false, false, false];
    let kept = trim_bytes(BitBuffer::from_bools(&bits));
    assert_eq!(kept.to_bools(), vec![false, true, false, true]);
}

#[test]
fn trim_bytes_keeps_a_buffer_that_ends_on() {
    let bits = vec![false, false, true];
    assert_eq!(trim_bytes(BitBuffer::from_bools(&bits)).to_bools(), bits);
    assert_eq!(trim_bytes(BitBuffer::from_bools(&vec![true])).to_bools(), vec![true]);
}

#[test]
fn trim_bytes_of_all_off_is_empty() {
    let kept = trim_bytes(BitBuffer::from_bools(&vec![false; 100]));
    assert!(kept.to_bools().is_empty());
    let none = trim_bytes(BitBuffer::from_bools(&Vec::new()));
    assert!(none.to_bools().is_empty());
}

#[test]
fn flatten_goes_column_by_column() {
    let mut buf = ScreenBuffer::new();
    buf.draw_pixel((0, 5), true);
    buf.draw_pixel((1, 0), true);
    buf.draw_pixel((127, 63), true);
    let bits = flatten(&buf).to_bools();
    assert_eq!(bits.len(), 8192);
    for (i, bit) in bits.iter().enumerate() {
        assert_eq!(*bit, i == 5 || i == 64 || i == 8191);
    }
}

#[test]
fn serialize_all_off_is_empty() {
    assert_eq!(serialize(&ScreenBuffer::new()), Vec::<u8>::new());
}

#[test]
fn serialize_first_pixel_is_one_byte() {
    let mut buf = ScreenBuffer::new();
    buf.draw_pixel((0, 0), true);
    assert_eq!(serialize(&buf), vec![0x80]);
}

#[test]
fn serialize_pads_the_last_byte_with_zeros() {
    let mut buf = ScreenBuffer::new();
    buf.draw_pixel((0, 7), true);
    assert_eq!(serialize(&buf), vec![0x01]);
    buf.draw_pixel((0, 8), true);
    assert_eq!(serialize(&buf), vec![0x01, 0x80]);
    buf.draw_pixel((0, 10), true);
    assert_eq!(serialize(&buf), vec![0x01, 0xA0]);
}

#[test]
fn serialize_one_pixel_reaches_just_to_it() {
    for (x, y) in [(0usize, 0usize), (0, 63), (1, 0), (3, 17), (64, 32), (127, 62), (127, 63)] {
        let mut buf = ScreenBuffer::new();
        buf.draw_pixel((x, y), true);
        let frame = serialize(&buf);
        let at = x * 64 + y;
        assert_eq!(frame.len(), (at + 1 + 7) / 8);
        for (j, byte) in frame.iter().enumerate() {
            let expected = if j == at / 8 { 0x80u8 >> (at % 8) } else { 0 };
            assert_eq!(*byte, expected);
        }
    }
}

#[test]
fn serialize_full_buffer_is_1024_bytes_of_ones() {
    let mut buf = ScreenBuffer::new();
    buf.draw_rectangle((0, 0), (128, 64), true);
    assert_eq!(serialize(&buf), vec![0xFF; 1024]);
}

#[test]
fn serialize_last_pixel_alone_is_1024_bytes() {
    let mut buf = ScreenBuffer::new();
    buf.draw_pixel((127, 63), true);
    let frame = serialize(&buf);
    assert_eq!(frame.len(), 1024);
    assert_eq!(frame[1023], 0x01);
    assert!(frame[..1023].iter().all(|b| *b == 0));
}

#[test]
fn serialize_digit_four() {
    let mut buf = ScreenBuffer::new();
    buf.write("4", (0, 0), true);
    let expected: Vec<u8> = vec![
        24, 0, 0, 0, 0, 0, 0, 0, 56, 0, 0, 0, 0, 0, 0, 0, 104, 0, 0, 0, 0, 0, 0, 0, 202, 0, 0, 0,
        0, 0, 0, 0, 254, 0, 0, 0, 0, 0, 0, 0, 254, 0, 0, 0, 0, 0, 0, 0, 10,
    ];
    assert_eq!(serialize(&buf), expected);
}

#[test]
fn serialize_long_text() {
    let mut buf = ScreenBuffer::new();
    buf.write("Hello, world! This is a long line of text.", (3, 5), true);
    assert_eq!(serialize(&buf).len(), 961);
}
