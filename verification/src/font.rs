//! Glyphs: the 8×8 pictures of characters, taken from the basic set of the
//! `font8x8` crate.

use crate::bits::{bit_of, bit_set};
use font8x8::UnicodeFonts;
use font8x8::BASIC_FONTS;
use vstd::prelude::*;

verus! {

/// Width and height of a glyph, in pixels.
pub const GLYPH_SIZE: usize = 8;

/// Whether the font has a glyph for `c`: it covers U+0000 to U+007F.
pub open spec fn in_basic_font(c: char) -> bool {
    (c as u32) < 128
}

/// The rows of the glyph that the font has for `c`, top row first, one byte
/// each; in a row, bit `k` (bit 0 the least significant) is the pixel in
/// column `k`. It says nothing for a character outside the font.
pub uninterp spec fn basic_font_rows(c: char) -> Seq<u8>;

/// `BASIC_FONTS.get` of `font8x8`: the eight row bytes of the glyph of `c`.
/// The font's table has one entry for each of U+0000 to U+007F, so the
/// lookup finds a glyph for exactly those characters.
#[verifier::external_body]
pub(crate) fn font_rows(c: char) -> (rows: Option<[u8; 8]>)
    ensures
        rows is Some <==> in_basic_font(c),
        rows matches Some(r) ==> r@ == basic_font_rows(c),
{
    BASIC_FONTS.get(c)
}

/// Whether the pixel in column `col` and row `row` of the glyph of `c` is
/// on. A character outside the font has no pixel on.
pub open spec fn glyph_pixel(c: char, col: int, row: int) -> bool {
    &&& in_basic_font(c)
    &&& 0 <= col < GLYPH_SIZE
    &&& 0 <= row < GLYPH_SIZE
    &&& bit_set(basic_font_rows(c)[row], col)
}

/// The glyph of `c`, as eight columns of eight pixels.
pub open spec fn glyph_of(c: char) -> Seq<Seq<bool>> {
    Seq::new(
        GLYPH_SIZE as nat,
        |col: int| Seq::new(GLYPH_SIZE as nat, |row: int| glyph_pixel(c, col, row)),
    )
}

/// The glyphs of `text` side by side: eight columns for each character,
/// each column eight pixels tall.
pub open spec fn text_matrix(text: Seq<char>) -> Seq<Seq<bool>> {
    Seq::new(8 * text.len(), |i: int| matrix_column(text, i))
}

/// The picture of one character: `cols[col][row]` is the pixel in column
/// `col` and row `row`.
#[derive(Clone, Copy, Debug)]
pub struct Glyph {
    cols: [[bool; GLYPH_SIZE]; GLYPH_SIZE],
}

impl View for Glyph {
    type V = Seq<Seq<bool>>;

    closed spec fn view(&self) -> Seq<Seq<bool>> {
        Seq::new(GLYPH_SIZE as nat, |col: int| self.cols@[col]@)
    }
}

impl Glyph {
    /// The pixel in column `col` and row `row`.
    pub fn pixel(&self, col: usize, row: usize) -> (on: bool)
        requires
            col < GLYPH_SIZE,
            row < GLYPH_SIZE,
        ensures
            on == self@[col as int][row as int],
    {
        self.cols[col][row]
    }

    /// The glyph as eight columns of eight pixels.
    pub fn columns(&self) -> (cols: [[bool; GLYPH_SIZE]; GLYPH_SIZE])
        ensures
            cols@.len() == GLYPH_SIZE,
            forall|col: int, row: int|
                0 <= col < GLYPH_SIZE && 0 <= row < GLYPH_SIZE ==> #[trigger] cols@[col]@[row]
                    == self@[col][row],
    {
        self.cols
    }
}

/// The glyph of `c`. A character that the font does not have gives the
/// glyph with every pixel off.
pub fn rasterize(c: char) -> (glyph: Glyph)
    ensures
        glyph@ == glyph_of(c),
{
    let mut cols: [[bool; GLYPH_SIZE]; GLYPH_SIZE] = [[false; GLYPH_SIZE]; GLYPH_SIZE];
    match font_rows(c) {
        Some(rows) => {
            let mut row: usize = 0;
            while row < GLYPH_SIZE
                invariant
                    row <= GLYPH_SIZE,
                    in_basic_font(c),
                    rows@ == basic_font_rows(c),
                    forall|qc: int, qr: int|
                        0 <= qc < GLYPH_SIZE && 0 <= qr < GLYPH_SIZE ==> #[trigger] cols@[qc]@[qr]
                            == (qr < row && glyph_pixel(c, qc, qr)),
                decreases GLYPH_SIZE - row,
            {
                let line: u8 = rows[row];
                let mut col: u8 = 0;
                while col < 8
                    invariant
                        row < GLYPH_SIZE,
                        col <= 8,
                        in_basic_font(c),
                        rows@ == basic_font_rows(c),
                        line == rows@[row as int],
                        forall|qc: int, qr: int|
                            0 <= qc < GLYPH_SIZE && 0 <= qr < GLYPH_SIZE
                                ==> #[trigger] cols@[qc]@[qr] == ((qr < row || (qr == row && qc
                                < col)) && glyph_pixel(c, qc, qr)),
                    decreases 8 - col,
                {
                    let on: bool = bit_of(line, col);
                    let ghost before = cols;
                    cols[col as usize][row] = on;
                    assert forall|qc: int, qr: int|
                        0 <= qc < GLYPH_SIZE && 0 <= qr < GLYPH_SIZE
                        implies #[trigger] cols@[qc]@[qr] == (if qc == col && qr == row {
                        on
                    } else {
                        before@[qc]@[qr]
                    }) by {}
                    col = col + 1;
                }
                row = row + 1;
            }
        },
        None => {},
    }
    let glyph = Glyph { cols };
    assert(glyph@ =~~= glyph_of(c));
    glyph
}

/// The glyph with every pixel off.
pub open spec fn blank_glyph() -> Seq<Seq<bool>> {
    Seq::new(GLYPH_SIZE as nat, |col: int| Seq::new(GLYPH_SIZE as nat, |row: int| false))
}

/// A character has one glyph: two glyphs rasterized from the same character
/// are the same, pixel for pixel.
pub proof fn same_character_same_glyph(first: Glyph, second: Glyph, c: char)
    requires
        first@ == glyph_of(c),
        second@ == glyph_of(c),
    ensures
        first@ == second@,
        forall|col: int, row: int|
            0 <= col < GLYPH_SIZE && 0 <= row < GLYPH_SIZE ==> first@[col][row]
                == second@[col][row],
{
}

/// A character that the font does not have has the blank glyph.
pub proof fn glyph_outside_font_is_blank(c: char)
    requires
        !in_basic_font(c),
    ensures
        glyph_of(c) == blank_glyph(),
{
    assert(glyph_of(c) =~~= blank_glyph());
}

/// Every glyph is eight columns of eight pixels.
pub proof fn glyph_is_square(c: char)
    ensures
        glyph_of(c).len() == GLYPH_SIZE,
        forall|col: int|
            0 <= col < GLYPH_SIZE ==> (#[trigger] glyph_of(c)[col]).len() == GLYPH_SIZE,
{
}

/// Column `i` of [`text_matrix`].
pub open spec fn matrix_column(text: Seq<char>, i: int) -> Seq<bool> {
    Seq::new(GLYPH_SIZE as nat, |row: int| glyph_pixel(text[i / 8], i % 8, row))
}

/// The characters of `text`, in order.
pub fn chars_of(text: &str) -> (chars: Vec<char>)
    ensures
        chars@ == text@,
{
    let mut chars: Vec<char> = Vec::new();
    for c in it: text.chars()
        invariant
            it.seq() == text@,
            chars@ == it.seq().take(it.index()),
    {
        chars.push(c);
    }
    chars
}

/// The glyphs of `chars` side by side, as columns of eight pixels: column
/// `8 * k + col` is column `col` of the glyph of character `k`.
pub fn chars_to_matrix(chars: &Vec<char>) -> (matrix: Vec<Vec<bool>>)
    ensures
        matrix.deep_view() == text_matrix(chars@),
        forall|i: int| 0 <= i < matrix@.len() ==> (#[trigger] matrix@[i])@.len() == GLYPH_SIZE,
{
    let mut matrix: Vec<Vec<bool>> = Vec::new();
    let mut k: usize = 0;
    while k < chars.len()
        invariant
            k <= chars.len(),
            matrix@.len() == 8 * k,
            forall|i: int| 0 <= i < 8 * k ==> (#[trigger] matrix@[i])@ == matrix_column(chars@, i),
        decreases chars.len() - k,
    {
        let glyph = rasterize(chars[k]);
        let mut col: usize = 0;
        while col < GLYPH_SIZE
            invariant
                k < chars.len(),
                col <= GLYPH_SIZE,
                glyph@ == glyph_of(chars@[k as int]),
                matrix@.len() == 8 * k + col,
                forall|i: int|
                    0 <= i < 8 * k + col ==> (#[trigger] matrix@[i])@ == matrix_column(chars@, i),
            decreases GLYPH_SIZE - col,
        {
            let mut column: Vec<bool> = Vec::new();
            let mut row: usize = 0;
            while row < GLYPH_SIZE
                invariant
                    col < GLYPH_SIZE,
                    row <= GLYPH_SIZE,
                    column@.len() == row,
                    forall|r: int| 0 <= r < row ==> column@[r] == glyph@[col as int][r],
                decreases GLYPH_SIZE - row,
            {
                column.push(glyph.pixel(col, row));
                row = row + 1;
            }
            assert(column@ =~= matrix_column(chars@, 8 * k + col));
            matrix.push(column);
            col = col + 1;
        }
        k = k + 1;
    }
    assert(matrix.deep_view() =~~= text_matrix(chars@));
    matrix
}

/// The glyphs of `text` side by side, as columns of eight pixels.
pub fn string_to_matrix(text: &str) -> (matrix: Vec<Vec<bool>>)
    ensures
        matrix.deep_view() == text_matrix(text@),
        forall|i: int| 0 <= i < matrix@.len() ==> (#[trigger] matrix@[i])@.len() == GLYPH_SIZE,
{
    let chars = chars_of(text);
    chars_to_matrix(&chars)
}

} // verus!
