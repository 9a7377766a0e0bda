//! Rasterizes a single left-aligned, vertically centred line of text.
use vstd::prelude::*;
use vstd::string::StrSliceExecFns;
use vstd::arithmetic::div_mod::{lemma_fundamental_div_mod, lemma_fundamental_div_mod_converse};

use crate::font::{Font, GLYPH_HEIGHT, GLYPH_WIDTH};
use crate::framebuffer::{
    blank, in_bounds, lemma_paint_ext, lemma_paint_one, lemma_paint_twice, paint, FrameBuffer, Pixel,
    MATRIX_HEIGHT, MATRIX_WIDTH, PIXEL_COUNT,
};

verus! {

/// Column of the first glyph.
pub const LEFT_MARGIN: usize = 4;

/// Distance between the left edges of consecutive glyphs.
pub const GLYPH_ADVANCE: usize = GLYPH_WIDTH + 1;

/// Top row of the text line, which centres it vertically.
pub const TEXT_TOP: usize = (MATRIX_HEIGHT - GLYPH_HEIGHT) / 2;

/// Most characters one line shows; later ones are cut off.
pub const TEXT_CAPACITY: usize = (MATRIX_WIDTH - LEFT_MARGIN) / GLYPH_ADVANCE;

pub open spec fn white() -> Pixel {
    Pixel { r: 0xFFFF, g: 0xFFFF, b: 0xFFFF }
}

/// Whether the glyph for `c` with its top-left corner at (x, y) lights (a, b).
pub open spec fn glyph_covers(font: Font, c: char, x: int, y: int, a: int, b: int) -> bool {
    font.cell(c, a - x, b - y)
}

/// Whether the first `n` characters of `text`, laid out from the left margin,
/// light (a, b).
pub open spec fn text_covers(font: Font, text: Seq<char>, n: int, a: int, b: int) -> bool {
    let k = (a - LEFT_MARGIN as int) / GLYPH_ADVANCE as int;
    &&& a >= LEFT_MARGIN as int
    &&& k < n
    &&& k < text.len()
    &&& font.cell(
        text[k],
        (a - LEFT_MARGIN as int) % GLYPH_ADVANCE as int,
        b - TEXT_TOP as int,
    )
}

/// Number of characters of a text of `len` characters that are drawn.
pub open spec fn shown(len: int) -> int {
    if len < TEXT_CAPACITY as int {
        len
    } else {
        TEXT_CAPACITY as int
    }
}

/// The panel showing `text` in white on black.
pub open spec fn rendered(font: Font, text: Seq<char>) -> Seq<Pixel> {
    paint(blank(), |a: int, b: int| text_covers(font, text, shown(text.len() as int), a, b), white())
}

spec fn glyph_done(font: Font, c: char, x: int, y: int, gy: int, gx: int, a: int, b: int) -> bool {
    &&& glyph_covers(font, c, x, y, a, b)
    &&& (b - y < gy || (b - y == gy && a - x < gx))
}

/// Draws the glyph for `c` with its top-left corner at (x, y); cells off the
/// panel are skipped and a character without a glyph draws nothing.
pub fn draw_char(fb: &mut FrameBuffer, font: &Font, c: char, x: usize, y: usize, p: Pixel)
    requires
        old(fb).wf(),
        font.wf(),
        x <= usize::MAX - GLYPH_WIDTH,
        y <= usize::MAX - GLYPH_HEIGHT,
    ensures
        final(fb).wf(),
        final(fb)@ == paint(old(fb)@, |a: int, b: int| glyph_covers(*font, c, x as int, y as int, a, b), p),
{
    let ghost start = fb@;
    let ghost f = *font;
    let mut gy: usize = 0;
    proof {
        lemma_paint_ext(
            start,
            |a: int, b: int| false,
            |a: int, b: int| glyph_done(f, c, x as int, y as int, 0, 0, a, b),
            p,
        );
        assert(start =~= paint(start, |a: int, b: int| false, p));
    }
    while gy < GLYPH_HEIGHT
        invariant
            start.len() == PIXEL_COUNT,
            f == *font,
            font.wf(),
            fb.wf(),
            x <= usize::MAX - GLYPH_WIDTH,
            y <= usize::MAX - GLYPH_HEIGHT,
            gy <= GLYPH_HEIGHT,
            fb@ == paint(start, |a: int, b: int| glyph_done(f, c, x as int, y as int, gy as int, 0, a, b), p),
        decreases GLYPH_HEIGHT - gy,
    {
        let row = font.glyph_row(c, gy);
        let mut gx: usize = 0;
        while gx < GLYPH_WIDTH
            invariant
                start.len() == PIXEL_COUNT,
                f == *font,
                font.wf(),
                fb.wf(),
                x <= usize::MAX - GLYPH_WIDTH,
                y <= usize::MAX - GLYPH_HEIGHT,
                gy < GLYPH_HEIGHT,
                gx <= GLYPH_WIDTH,
                row == f.row(c, gy as int),
                fb@ == paint(
                    start,
                    |a: int, b: int| glyph_done(f, c, x as int, y as int, gy as int, gx as int, a, b),
                    p,
                ),
            decreases GLYPH_WIDTH - gx,
        {
            let lit = (row >> ((4 - gx) as u8)) & 1u8 == 1u8;
            assert(lit == f.cell(c, gx as int, gy as int));
            if lit {
                proof {
                    lemma_paint_one(
                        start,
                        |a: int, b: int| glyph_done(f, c, x as int, y as int, gy as int, gx as int, a, b),
                        |a: int, b: int| glyph_done(f, c, x as int, y as int, gy as int, gx + 1, a, b),
                        (x + gx) as int,
                        (y + gy) as int,
                        p,
                    );
                }
                fb.set_pixel(x + gx, y + gy, p);
            } else {
                proof {
                    lemma_paint_ext(
                        start,
                        |a: int, b: int| glyph_done(f, c, x as int, y as int, gy as int, gx as int, a, b),
                        |a: int, b: int| glyph_done(f, c, x as int, y as int, gy as int, gx + 1, a, b),
                        p,
                    );
                }
            }
            gx += 1;
        }
        proof {
            lemma_paint_ext(
                start,
                |a: int, b: int| glyph_done(f, c, x as int, y as int, gy as int, GLYPH_WIDTH as int, a, b),
                |a: int, b: int| glyph_done(f, c, x as int, y as int, gy + 1, 0, a, b),
                p,
            );
        }
        gy += 1;
    }
    proof {
        lemma_paint_ext(
            start,
            |a: int, b: int| glyph_done(f, c, x as int, y as int, GLYPH_HEIGHT as int, 0, a, b),
            |a: int, b: int| glyph_covers(f, c, x as int, y as int, a, b),
            p,
        );
    }
}

/// Drawing glyph `k` at its place extends the first `k` characters to `k + 1`.
proof fn lemma_next_glyph(font: Font, text: Seq<char>, k: int)
    requires
        0 <= k < text.len(),
    ensures
        forall|a: int, b: int|
            in_bounds(a, b) ==> (#[trigger] text_covers(font, text, k + 1, a, b) <==> (text_covers(
                font,
                text,
                k,
                a,
                b,
            ) || glyph_covers(
                font,
                text[k],
                LEFT_MARGIN as int + k * GLYPH_ADVANCE as int,
                TEXT_TOP as int,
                a,
                b,
            ))),
{
    assert forall|a: int, b: int| in_bounds(a, b) implies (#[trigger] text_covers(
        font,
        text,
        k + 1,
        a,
        b,
    ) <==> (text_covers(font, text, k, a, b) || glyph_covers(
        font,
        text[k],
        LEFT_MARGIN as int + k * GLYPH_ADVANCE as int,
        TEXT_TOP as int,
        a,
        b,
    ))) by {
        let d = a - LEFT_MARGIN as int;
        lemma_fundamental_div_mod(d, GLYPH_ADVANCE as int);
        let gx = a - (LEFT_MARGIN as int + k * GLYPH_ADVANCE as int);
        if 0 <= gx < GLYPH_WIDTH as int {
            lemma_fundamental_div_mod_converse(d, GLYPH_ADVANCE as int, k, gx);
        }
    }
}

/// Clears `fb` and draws `text` in white from the left margin on the centred
/// line: one glyph per character, advancing by the glyph width plus one
/// column, and stopping once the next glyph would reach the right edge.
pub fn render_text(fb: &mut FrameBuffer, font: &Font, text: &str)
    requires
        old(fb).wf(),
        font.wf(),
    ensures
        final(fb).wf(),
        final(fb)@ == rendered(*font, text@),
{
    let ghost f = *font;
    fb.clear();
    let n = text.unicode_len();
    let w = font.width();
    let top: usize = (MATRIX_HEIGHT - font.height()) / 2;
    let mut x: usize = LEFT_MARGIN;
    let mut k: usize = 0;
    proof {
        lemma_paint_ext(
            blank(),
            |a: int, b: int| false,
            |a: int, b: int| text_covers(f, text@, 0, a, b),
            white(),
        );
        assert(blank() =~= paint(blank(), |a: int, b: int| false, white()));
    }
    while k < n && x < MATRIX_WIDTH - w
        invariant
            f == *font,
            font.wf(),
            fb.wf(),
            n == text@.len(),
            w == GLYPH_WIDTH,
            top == TEXT_TOP,
            x == LEFT_MARGIN + k * GLYPH_ADVANCE,
            k <= n,
            k <= TEXT_CAPACITY,
            fb@ == paint(blank(), |a: int, b: int| text_covers(f, text@, k as int, a, b), white()),
        decreases n - k,
    {
        assert(k < TEXT_CAPACITY) by (nonlinear_arith)
            requires
                x == LEFT_MARGIN + k * GLYPH_ADVANCE,
                x < MATRIX_WIDTH - GLYPH_WIDTH,
                GLYPH_ADVANCE == 6,
                LEFT_MARGIN == 4,
                TEXT_CAPACITY == 14,
                MATRIX_WIDTH == 88,
                GLYPH_WIDTH == 5,
        ;
        let c = text.get_char(k);
        draw_char(fb, font, c, x, top, Pixel { r: 0xFFFF, g: 0xFFFF, b: 0xFFFF });
        proof {
            lemma_paint_twice(
                blank(),
                |a: int, b: int| text_covers(f, text@, k as int, a, b),
                |a: int, b: int| glyph_covers(f, c, x as int, top as int, a, b),
                white(),
            );
            lemma_next_glyph(f, text@, k as int);
            lemma_paint_ext(
                blank(),
                |a: int, b: int|
                    text_covers(f, text@, k as int, a, b) || glyph_covers(
                        f,
                        c,
                        x as int,
                        top as int,
                        a,
                        b,
                    ),
                |a: int, b: int| text_covers(f, text@, k + 1, a, b),
                white(),
            );
        }
        let ghost k0 = k;
        x += w + 1;
        k += 1;
        assert(x == LEFT_MARGIN + k * GLYPH_ADVANCE) by (nonlinear_arith)
            requires
                x == LEFT_MARGIN + k0 * GLYPH_ADVANCE + GLYPH_ADVANCE,
                k == k0 + 1,
        ;
    }
    assert(k as int == shown(n as int)) by (nonlinear_arith)
        requires
            x == LEFT_MARGIN + k * GLYPH_ADVANCE,
            k <= n,
            k <= TEXT_CAPACITY,
            k == n || x >= MATRIX_WIDTH - GLYPH_WIDTH,
            GLYPH_ADVANCE == 6,
            LEFT_MARGIN == 4,
            TEXT_CAPACITY == 14,
            MATRIX_WIDTH == 88,
            GLYPH_WIDTH == 5,
    ;
}

/// Text longer than a line is cut off after the same character every time:
/// two texts that agree on their first `TEXT_CAPACITY` characters render to the
/// same panel, whatever follows (so a long text renders as its first
/// `TEXT_CAPACITY` characters alone).
pub proof fn lemma_truncation(font: Font, t1: Seq<char>, t2: Seq<char>)
    requires
        t1.len() >= TEXT_CAPACITY,
        t2.len() >= TEXT_CAPACITY,
        t1.subrange(0, TEXT_CAPACITY as int) == t2.subrange(0, TEXT_CAPACITY as int),
    ensures
        rendered(font, t1) == rendered(font, t2),
{
    assert forall|a: int, b: int| in_bounds(a, b) implies #[trigger] text_covers(
        font,
        t1,
        TEXT_CAPACITY as int,
        a,
        b,
    ) == text_covers(font, t2, TEXT_CAPACITY as int, a, b) by {
        let k = (a - LEFT_MARGIN as int) / GLYPH_ADVANCE as int;
        if a >= LEFT_MARGIN as int && k < TEXT_CAPACITY as int {
            assert(t1.subrange(0, TEXT_CAPACITY as int)[k] == t1[k]);
            assert(t2.subrange(0, TEXT_CAPACITY as int)[k] == t2[k]);
        }
    }
    lemma_paint_ext(
        blank(),
        |a: int, b: int| text_covers(font, t1, TEXT_CAPACITY as int, a, b),
        |a: int, b: int| text_covers(font, t2, TEXT_CAPACITY as int, a, b),
        white(),
    );
}

} // verus!
