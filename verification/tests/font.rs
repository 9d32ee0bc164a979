use mono_frame::font::{chars_of, chars_to_matrix, rasterize, string_to_matrix};

const ROWS_A: [u8; 8] = [0x0C, 0x1E, 0x33, 0x33, 0x3F, 0x33, 0x33, 0x00];
const ROWS_4: [u8; 8] = [0x38, 0x3C, 0x36, 0x33, 0x7F, 0x30, 0x78, 0x00];

fn columns_from_rows(rows: [u8; 8]) -> [[bool; 8]; 8] {
    let mut cols = [[false; 8]; 8];
    for row in 0..8 {
        for col in 0..8 {
            cols[col][row] = rows[row] & (1 << col) != 0;
        }
    }
    cols
}

#[test]
fn rasterize_capital_a() {
    let glyph = rasterize('A');
    assert_eq!(glyph.columns(), columns_from_rows(ROWS_A));
    assert!(glyph.pixel(2, 0));
    assert!(glyph.pixel(3, 0));
    assert!(!glyph.pixel(0, 0));
    assert!(glyph.pixel(0, 2));
    assert!(!glyph.pixel(0, 7));
}

#[test]
fn rasterize_digit_four() {
    assert_eq!(rasterize('4').columns(), columns_from_rows(ROWS_4));
}

#[test]
fn rasterize_twice_gives_the_same_glyph() {
    for c in ['A', 'z', '0', ' ', '~', '\u{7f}', 'é', '\u{10FFFF}'] {
        assert_eq!(rasterize(c).columns(), rasterize(c).columns());
    }
}

#[test]
fn rasterize_outside_the_font_is_blank() {
    for c in ['\u{80}', 'é', 'Ω', 'あ', '█', '\u{10FFFF}'] {
        assert_eq!(rasterize(c).columns(), [[false; 8]; 8]);
    }
}

#[test]
fn rasterize_space_is_blank_and_last_basic_character_is_found() {
    assert_eq!(rasterize(' ').columns(), [[false; 8]; 8]);
    assert_eq!(rasterize('\u{0}').columns(), [[false; 8]; 8]);
    assert_ne!(rasterize('~').columns(), [[false; 8]; 8]);
}

#[test]
fn chars_of_keeps_every_character() {
    assert_eq!(chars_of("aé█"), vec!['a', 'é', '█']);
    assert_eq!(chars_of(""), Vec::<char>::new());
}

#[test]
fn string_to_matrix_puts_glyphs_side_by_side() {
    let m = string_to_matrix("A4");
    assert_eq!(m.len(), 16);
    let a = columns_from_rows(ROWS_A);
    let four = columns_from_rows(ROWS_4);
    for col in 0..8 {
        assert_eq!(m[col], a[col].to_vec());
        assert_eq!(m[8 + col], four[col].to_vec());
    }
}

#[test]
fn string_to_matrix_of_nothing_is_empty() {
    assert!(string_to_matrix("").is_empty());
    assert!(chars_to_matrix(&Vec::new()).is_empty());
}

#[test]
fn string_to_matrix_counts_characters_not_bytes() {
    let m = string_to_matrix("éA");
    assert_eq!(m.len(), 16);
    for col in 0..8 {
        assert_eq!(m[col], vec![false; 8]);
    }
    assert_eq!(m[8 + 2], columns_from_rows(ROWS_A)[2].to_vec());
}
