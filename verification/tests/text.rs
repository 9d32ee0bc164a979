use mono_frame::font::rasterize;
use mono_frame::screen::{ScreenBuffer, SCREEN_HEIGHT, SCREEN_WIDTH};
use mono_frame::text::{line_length, split_chunks};

fn lit(buf: &ScreenBuffer) -> Vec<(usize, usize)> {
    let mut out = Vec::new();
    for x in 0..SCREEN_WIDTH {
        for y in 0..SCREEN_HEIGHT {
            if buf.get_pixel(x, y) {
                out.push((x, y));
            }
        }
    }
    out
}

fn ceil_div(a: usize, b: usize) -> usize {
    (a + b - 1) / b
}

#[test]
fn line_length_is_the_glyphs_that_fit() {
    assert_eq!(line_length(0), 16);
    assert_eq!(line_length(1), 15);
    assert_eq!(line_length(8), 15);
    assert_eq!(line_length(40), 11);
    assert_eq!(line_length(112), 2);
    assert_eq!(line_length(113), 1);
    assert_eq!(line_length(120), 1);
}

#[test]
fn line_length_is_never_zero() {
    assert_eq!(line_length(121), 1);
    assert_eq!(line_length(127), 1);
    assert_eq!(line_length(128), 1);
    assert_eq!(line_length(129), 1);
    assert_eq!(line_length(usize::MAX), 1);
}

#[test]
fn chunk_count_is_length_over_line_length_rounded_up() {
    for x in [0usize, 1, 7, 8, 40, 100, 112, 120, 121, 128, 500] {
        let size = std::cmp::max(1, (128usize.saturating_sub(x)) / 8);
        for len in 0..70usize {
            let chars: Vec<char> = std::iter::repeat('x').take(len).collect();
            let chunks = split_chunks(&chars, x);
            assert_eq!(chunks.len(), ceil_div(len, size));
        }
    }
}

#[test]
fn split_chunks_keeps_the_order() {
    let chars: Vec<char> = "abcdefghijklmnopqrstuvwxyz0123456789".chars().collect();
    let chunks = split_chunks(&chars, 0);
    assert_eq!(chunks.len(), 3);
    assert_eq!(chunks[0].iter().collect::<String>(), "abcdefghijklmnop");
    assert_eq!(chunks[1].iter().collect::<String>(), "qrstuvwxyz012345");
    assert_eq!(chunks[2].iter().collect::<String>(), "6789");
    let narrow = split_chunks(&chars, 112);
    assert_eq!(narrow.len(), 18);
    assert_eq!(narrow[0], vec!['a', 'b']);
    assert_eq!(narrow[17], vec!['8', '9']);
}

#[test]
fn split_chunks_of_nothing_is_nothing() {
    assert!(split_chunks(&Vec::new(), 0).is_empty());
    assert!(split_chunks(&Vec::new(), 300).is_empty());
}

#[test]
fn write_empty_text_changes_nothing() {
    let mut buf = ScreenBuffer::new();
    buf.draw_pixel((3, 3), true);
    buf.write("", (0, 0), true);
    buf.write("", (500, 500), false);
    assert_eq!(lit(&buf), vec![(3, 3)]);
}

#[test]
fn write_one_character_is_its_glyph() {
    let mut buf = ScreenBuffer::new();
    buf.write("A", (10, 20), true);
    let glyph = rasterize('A');
    for x in 0..SCREEN_WIDTH {
        for y in 0..SCREEN_HEIGHT {
            let inside = (10..18).contains(&x) && (20..28).contains(&y);
            let expected = inside && glyph.pixel(x - 10, y - 20);
            assert_eq!(buf.get_pixel(x, y), expected);
        }
    }
}

#[test]
fn write_places_characters_eight_columns_apart() {
    let mut buf = ScreenBuffer::new();
    buf.write("A4", (0, 0), true);
    let a = rasterize('A');
    let four = rasterize('4');
    for col in 0..8 {
        for row in 0..8 {
            assert_eq!(buf.get_pixel(col, row), a.pixel(col, row));
            assert_eq!(buf.get_pixel(8 + col, row), four.pixel(col, row));
        }
    }
    assert_eq!(lit(&buf).len(), 28 + 28);
}

#[test]
fn write_wraps_to_the_next_band() {
    let mut buf = ScreenBuffer::new();
    buf.write("AAA", (112, 3), true);
    let a = rasterize('A');
    for col in 0..8 {
        for row in 0..8 {
            assert_eq!(buf.get_pixel(112 + col, 3 + row), a.pixel(col, row));
            assert_eq!(buf.get_pixel(120 + col, 3 + row), a.pixel(col, row));
            assert_eq!(buf.get_pixel(112 + col, 11 + row), a.pixel(col, row));
            assert!(!buf.get_pixel(120 + col, 11 + row));
        }
    }
}

#[test]
fn write_long_text_fills_three_lines() {
    let mut buf = ScreenBuffer::new();
    buf.write("Hello, world! This is a long line of text.", (3, 5), true);
    assert_eq!(lit(&buf).len(), 644);
}

#[test]
fn write_near_the_right_edge_is_clipped() {
    let mut buf = ScreenBuffer::new();
    buf.write("AB", (124, 0), true);
    let expected = vec![
        (124, 2), (124, 3), (124, 4), (124, 5), (124, 6), (124, 8), (124, 14),
        (125, 1), (125, 2), (125, 3), (125, 4), (125, 5), (125, 6),
        (125, 8), (125, 9), (125, 10), (125, 11), (125, 12), (125, 13), (125, 14),
        (126, 0), (126, 1), (126, 4),
        (126, 8), (126, 9), (126, 10), (126, 11), (126, 12), (126, 13), (126, 14),
        (127, 0), (127, 1), (127, 4), (127, 8), (127, 11), (127, 14),
    ];
    assert_eq!(lit(&buf), expected);
}

#[test]
fn write_off_the_display_changes_nothing() {
    let mut buf = ScreenBuffer::new();
    buf.write("hello", (128, 0), true);
    buf.write("hello", (500, 10), true);
    buf.write("hello", (0, 64), true);
    buf.write("hello", (usize::MAX, usize::MAX), true);
    assert!(lit(&buf).is_empty());
}

#[test]
fn write_below_the_bottom_edge_is_clipped() {
    let mut buf = ScreenBuffer::new();
    buf.write("A", (0, 60), true);
    let a = rasterize('A');
    for col in 0..8 {
        for row in 0..4 {
            assert_eq!(buf.get_pixel(col, 60 + row), a.pixel(col, row));
        }
    }
    assert_eq!(lit(&buf).len(), 2 + 4 + 4 + 4);
}

#[test]
fn write_drops_lines_past_the_bottom() {
    let mut buf = ScreenBuffer::new();
    let text: String = std::iter::repeat('A').take(16 * 9).collect();
    buf.write(&text, (0, 0), true);
    assert_eq!(lit(&buf).len(), 28 * 16 * 8);
}

#[test]
fn write_leaves_pixels_under_off_glyph_pixels() {
    let mut buf = ScreenBuffer::new();
    buf.write("A", (0, 0), true);
    let after_a = lit(&buf);
    buf.write(" ", (0, 0), true);
    assert_eq!(lit(&buf), after_a);
    buf.write("4", (0, 0), true);
    let a = rasterize('A');
    let four = rasterize('4');
    for col in 0..8 {
        for row in 0..8 {
            assert_eq!(buf.get_pixel(col, row), a.pixel(col, row) || four.pixel(col, row));
        }
    }
}

#[test]
fn write_in_the_off_color_erases_only_glyph_pixels() {
    let mut buf = ScreenBuffer::new();
    buf.draw_rectangle((0, 0), (8, 8), true);
    buf.write("A", (0, 0), false);
    let a = rasterize('A');
    for col in 0..8 {
        for row in 0..8 {
            assert_eq!(buf.get_pixel(col, row), !a.pixel(col, row));
        }
    }
}

#[test]
fn write_chars_is_write() {
    let mut one = ScreenBuffer::new();
    let mut two = ScreenBuffer::new();
    one.write("frame 42", (5, 9), true);
    let chars: Vec<char> = "frame 42".chars().collect();
    two.write_chars(&chars, (5, 9), true);
    assert_eq!(lit(&one), lit(&two));
    assert!(!lit(&one).is_empty());
}

#[test]
fn overlay_lays_on_pixels_only() {
    let mut buf = ScreenBuffer::new();
    buf.draw_pixel((4, 17), true);
    let mut matrix = vec![vec![false; 8]; 3];
    matrix[0][0] = true;
    matrix[2][7] = true;
    buf.overlay(&matrix, (4, 1), 2, true);
    assert_eq!(lit(&buf), vec![(4, 17), (6, 24)]);
    buf.overlay(&matrix, (4, 1), 2, false);
    assert!(lit(&buf).is_empty());
    buf.overlay(&matrix, (4, 1), 8, true);
    buf.overlay(&matrix, (4, 1), usize::MAX, true);
    assert!(lit(&buf).is_empty());
}
