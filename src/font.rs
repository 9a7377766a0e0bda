use vstd::prelude::*;

verus! {

/// Width of every glyph, in pixels.
pub const GLYPH_WIDTH: usize = 5;

/// Height of every glyph, in pixels.
pub const GLYPH_HEIGHT: usize = 7;

/// Code point of the first glyph in the table (space).
pub const FIRST_GLYPH: u32 = 0x20;

/// Code point of the last glyph in the table ('Z').
pub const LAST_GLYPH: u32 = 0x5A;

/// Number of glyphs in the table.
pub const GLYPH_COUNT: usize = 59;

/// The glyph bitmaps, seven rows per glyph from space to 'Z' in code point
/// order. Each row is top first; bit 4 is the leftmost pixel.
pub const GLYPH_ROWS: [u8; 413] = [
    0x00, 0x00, 0x00, 0x00, 0x00, 0x00, 0x00, // ' '
    0x04, 0x04, 0x04, 0x04, 0x04, 0x00, 0x04, // '!'
    0x0A, 0x0A, 0x0A, 0x00, 0x00, 0x00, 0x00, // '"'
    0x0A, 0x0A, 0x1F, 0x0A, 0x1F, 0x0A, 0x0A, // '#'
    0x04, 0x0F, 0x14, 0x0E, 0x05, 0x1E, 0x04, // '$'
    0x18, 0x19, 0x02, 0x04, 0x08, 0x13, 0x03, // '%'
    0x0C, 0x12, 0x14, 0x08, 0x15, 0x12, 0x0D, // '&'
    0x0C, 0x04, 0x08, 0x00, 0x00, 0x00, 0x00, // '\''
    0x02, 0x04, 0x08, 0x08, 0x08, 0x04, 0x02, // '('
    0x08, 0x04, 0x02, 0x02, 0x02, 0x04, 0x08, // ')'
    0x00, 0x04, 0x15, 0x0E, 0x15, 0x04, 0x00, // '*'
    0x00, 0x04, 0x04, 0x1F, 0x04, 0x04, 0x00, // '+'
    0x00, 0x00, 0x00, 0x00, 0x0C, 0x04, 0x08, // ','
    0x00, 0x00, 0x00, 0x1F, 0x00, 0x00, 0x00, // '-'
    0x00, 0x00, 0x00, 0x00, 0x00, 0x0C, 0x0C, // '.'
    0x00, 0x01, 0x02, 0x04, 0x08, 0x10, 0x00, // '/'
    0x0E, 0x11, 0x13, 0x15, 0x19, 0x11, 0x0E, // '0'
    0x04, 0x0C, 0x04, 0x04, 0x04, 0x04, 0x0E, // '1'
    0x0E, 0x11, 0x01, 0x02, 0x04, 0x08, 0x1F, // '2'
    0x1F, 0x02, 0x04, 0x02, 0x01, 0x11, 0x0E, // '3'
    0x02, 0x06, 0x0A, 0x12, 0x1F, 0x02, 0x02, // '4'
    0x1F, 0x10, 0x1E, 0x01, 0x01, 0x11, 0x0E, // '5'
    0x06, 0x08, 0x10, 0x1E, 0x11, 0x11, 0x0E, // '6'
    0x1F, 0x01, 0x02, 0x04, 0x08, 0x08, 0x08, // '7'
    0x0E, 0x11, 0x11, 0x0E, 0x11, 0x11, 0x0E, // '8'
    0x0E, 0x11, 0x11, 0x0F, 0x01, 0x02, 0x0C, // '9'
    0x00, 0x0C, 0x0C, 0x00, 0x0C, 0x0C, 0x00, // ':'
    0x00, 0x0C, 0x0C, 0x00, 0x0C, 0x04, 0x08, // ';'
    0x02, 0x04, 0x08, 0x10, 0x08, 0x04, 0x02, // '<'
    0x00, 0x00, 0x1F, 0x00, 0x1F, 0x00, 0x00, // '='
    0x08, 0x04, 0x02, 0x01, 0x02, 0x04, 0x08, // '>'
    0x0E, 0x11, 0x01, 0x02, 0x04, 0x00, 0x04, // '?'
    0x0E, 0x11, 0x01, 0x0D, 0x15, 0x15, 0x0E, // '@'
    0x0E, 0x11, 0x11, 0x11, 0x1F, 0x11, 0x11, // 'A'
    0x1E, 0x11, 0x11, 0x1E, 0x11, 0x11, 0x1E, // 'B'
    0x0E, 0x11, 0x10, 0x10, 0x10, 0x11, 0x0E, // 'C'
    0x1C, 0x12, 0x11, 0x11, 0x11, 0x12, 0x1C, // 'D'
    0x1F, 0x10, 0x10, 0x1E, 0x10, 0x10, 0x1F, // 'E'
    0x1F, 0x10, 0x10, 0x1E, 0x10, 0x10, 0x10, // 'F'
    0x0E, 0x11, 0x10, 0x17, 0x11, 0x11, 0x0F, // 'G'
    0x11, 0x11, 0x11, 0x1F, 0x11, 0x11, 0x11, // 'H'
    0x0E, 0x04, 0x04, 0x04, 0x04, 0x04, 0x0E, // 'I'
    0x07, 0x02, 0x02, 0x02, 0x02, 0x12, 0x0C, // 'J'
    0x11, 0x12, 0x14, 0x18, 0x14, 0x12, 0x11, // 'K'
    0x10, 0x10, 0x10, 0x10, 0x10, 0x10, 0x1F, // 'L'
    0x11, 0x1B, 0x15, 0x15, 0x11, 0x11, 0x11, // 'M'
    0x11, 0x11, 0x19, 0x15, 0x13, 0x11, 0x11, // 'N'
    0x0E, 0x11, 0x11, 0x11, 0x11, 0x11, 0x0E, // 'O'
    0x1E, 0x11, 0x11, 0x1E, 0x10, 0x10, 0x10, // 'P'
    0x0E, 0x11, 0x11, 0x11, 0x15, 0x12, 0x0D, // 'Q'
    0x1E, 0x11, 0x11, 0x1E, 0x14, 0x12, 0x11, // 'R'
    0x0F, 0x10, 0x10, 0x0E, 0x01, 0x01, 0x1E, // 'S'
    0x1F, 0x04, 0x04, 0x04, 0x04, 0x04, 0x04, // 'T'
    0x11, 0x11, 0x11, 0x11, 0x11, 0x11, 0x0E, // 'U'
    0x11, 0x11, 0x11, 0x11, 0x11, 0x0A, 0x04, // 'V'
    0x11, 0x11, 0x11, 0x15, 0x15, 0x15, 0x0A, // 'W'
    0x11, 0x11, 0x0A, 0x04, 0x0A, 0x11, 0x11, // 'X'
    0x11, 0x11, 0x11, 0x0A, 0x04, 0x04, 0x04, // 'Y'
    0x1F, 0x01, 0x02, 0x04, 0x08, 0x10, 0x1F, // 'Z'
];

/// Which glyph of the table draws `c`: ASCII from space to 'Z', with lower-case
/// letters drawn as their capitals. Other characters have none.
pub open spec fn glyph_slot(c: char) -> Option<int> {
    let v = c as int;
    if FIRST_GLYPH as int <= v <= LAST_GLYPH as int {
        Some(v - FIRST_GLYPH as int)
    } else if 0x61 <= v <= 0x7A {
        Some(v - 0x20 - FIRST_GLYPH as int)
    } else {
        None
    }
}

/// A fixed-size 5x7 bitmap font. Each glyph is seven rows, top first; in a row
/// bit 4 is the leftmost pixel.
pub struct Font {
    rows: Vec<u8>,
}

impl View for Font {
    type V = Seq<u8>;

    closed spec fn view(&self) -> Seq<u8> {
        self.rows@
    }
}

impl Font {
    pub open spec fn wf(&self) -> bool {
        self@.len() == GLYPH_COUNT * GLYPH_HEIGHT
    }

    /// Row `gy` of the glyph for `c`; an empty row when `c` has no glyph.
    pub open spec fn row(&self, c: char, gy: int) -> u8 {
        match glyph_slot(c) {
            Some(g) => self@[g * GLYPH_HEIGHT as int + gy],
            None => 0,
        }
    }

    /// Whether the glyph for `c` lights its cell at column `gx`, row `gy`.
    pub open spec fn cell(&self, c: char, gx: int, gy: int) -> bool {
        &&& 0 <= gx < GLYPH_WIDTH as int
        &&& 0 <= gy < GLYPH_HEIGHT as int
        &&& (self.row(c, gy) >> ((4 - gx) as u8)) & 1u8 == 1u8
    }

    /// The font of `GLYPH_ROWS`.
    pub fn new() -> (r: Font)
        ensures
            r.wf(),
            r@ == GLYPH_ROWS@,
    {
        let mut rows: Vec<u8> = Vec::new();
        let mut i: usize = 0;
        while i < GLYPH_COUNT * GLYPH_HEIGHT
            invariant
                i <= GLYPH_COUNT * GLYPH_HEIGHT,
                rows@ == GLYPH_ROWS@.subrange(0, i as int),
            decreases GLYPH_COUNT * GLYPH_HEIGHT - i,
        {
            rows.push(GLYPH_ROWS[i]);
            i += 1;
            assert(rows@ =~= GLYPH_ROWS@.subrange(0, i as int));
        }
        assert(rows@ =~= GLYPH_ROWS@);
        Font { rows }
    }

    pub fn width(&self) -> (r: usize)
        ensures
            r == GLYPH_WIDTH,
    {
        GLYPH_WIDTH
    }

    pub fn height(&self) -> (r: usize)
        ensures
            r == GLYPH_HEIGHT,
    {
        GLYPH_HEIGHT
    }

    /// Index of the glyph that draws `c`, if the table has one.
    pub fn slot(c: char) -> (r: Option<usize>)
        ensures
            r matches Some(g) ==> glyph_slot(c) == Some(g as int),
            r is None ==> glyph_slot(c) is None,
    {
        let v = c as u32;
        if FIRST_GLYPH <= v && v <= LAST_GLYPH {
            Some((v - FIRST_GLYPH) as usize)
        } else if 0x61 <= v && v <= 0x7A {
            Some((v - 0x20 - FIRST_GLYPH) as usize)
        } else {
            None
        }
    }

    /// Whether `c` has a glyph; one without is drawn as blank.
    pub fn has_glyph(&self, c: char) -> (r: bool)
        ensures
            r == glyph_slot(c) is Some,
    {
        Font::slot(c).is_some()
    }

    /// Row `gy` of the glyph for `c`.
    pub fn glyph_row(&self, c: char, gy: usize) -> (r: u8)
        requires
            self.wf(),
            gy < GLYPH_HEIGHT,
        ensures
            r == self.row(c, gy as int),
    {
        match Font::slot(c) {
            Some(g) => self.rows[g * GLYPH_HEIGHT + gy],
            None => 0,
        }
    }
}

} // verus!
