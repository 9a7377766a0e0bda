use led_matrix::font::Font;
use led_matrix::framebuffer::FrameBuffer;
use led_matrix::text::{draw_char, TEXT_CAPACITY, TEXT_TOP};
use led_matrix::{LedMatrix, Pixel, Step, Timing, MATRIX_HEIGHT, MATRIX_WIDTH};

const WHITE: Pixel = Pixel { r: 0xFFFF, g: 0xFFFF, b: 0xFFFF };
const BLACK: Pixel = Pixel { r: 0, g: 0, b: 0 };

fn driver() -> LedMatrix {
    let mut out: Vec<Step> = Vec::new();
    LedMatrix::new(Timing::standard(), &mut out)
}

fn snapshot(m: &LedMatrix) -> Vec<Pixel> {
    let mut v = Vec::new();
    for y in 0..MATRIX_HEIGHT {
        for x in 0..MATRIX_WIDTH {
            v.push(m.get_pixel(x, y).unwrap());
        }
    }
    v
}

fn lit(m: &LedMatrix) -> Vec<(usize, usize)> {
    let mut v = Vec::new();
    for y in 0..MATRIX_HEIGHT {
        for x in 0..MATRIX_WIDTH {
            let p = m.get_pixel(x, y).unwrap();
            if p != BLACK {
                assert_eq!(p, WHITE);
                v.push((x, y));
            }
        }
    }
    v
}

#[test]
fn empty_text_leaves_panel_dark() {
    let mut m = driver();
    m.fill_rect(0, 0, 87, 87, 1, 2, 3);
    m.display_text("");
    assert!(lit(&m).is_empty());
}

#[test]
fn layout_constants() {
    assert_eq!(TEXT_TOP, 40);
    assert_eq!(TEXT_CAPACITY, 14);
}

#[test]
fn hi_is_drawn_at_margin_and_centred() {
    let mut m = driver();
    m.display_text("HI");
    let h = [0x11u8, 0x11, 0x11, 0x1F, 0x11, 0x11, 0x11];
    let i = [0x0Eu8, 0x04, 0x04, 0x04, 0x04, 0x04, 0x0E];
    let mut want = Vec::new();
    for gy in 0..7 {
        for x in 0..MATRIX_WIDTH {
            let cell = |rows: &[u8; 7], x0: usize| {
                x >= x0 && x < x0 + 5 && (rows[gy] >> (4 - (x - x0))) & 1 == 1
            };
            if cell(&h, 4) || cell(&i, 10) {
                want.push((x, 40 + gy));
            }
        }
    }
    assert_eq!(lit(&m), want);
}

#[test]
fn unknown_character_is_blank_but_advances() {
    let mut a = driver();
    a.display_text("A\u{263A}A");
    let mut b = driver();
    b.display_text("A A");
    assert_eq!(snapshot(&a), snapshot(&b));
    assert!(lit(&a).iter().any(|(x, _)| *x >= 16));
}

#[test]
fn lower_case_draws_as_capitals() {
    let mut a = driver();
    a.display_text("hello");
    let mut b = driver();
    b.display_text("HELLO");
    assert_eq!(snapshot(&a), snapshot(&b));
}

#[test]
fn long_text_is_cut_at_capacity() {
    let long = "ABCDEFGHIJKLMNOPQRSTUVWXYZ";
    let mut a = driver();
    a.display_text(long);
    let mut b = driver();
    b.display_text(&long[..14]);
    assert_eq!(snapshot(&a), snapshot(&b));
    let mut c = driver();
    c.display_text(&long[..13]);
    assert_ne!(snapshot(&a), snapshot(&c));
    let first = snapshot(&a);
    a.display_text(long);
    assert_eq!(snapshot(&a), first);
    assert!(lit(&a).iter().all(|(x, _)| *x < 87));
}

#[test]
fn text_replaces_previous_content() {
    let mut m = driver();
    m.set_pixel(0, 0, 7, 7, 7);
    m.display_text("I");
    assert_eq!(m.get_pixel(0, 0), Some(BLACK));
    assert_eq!(m.get_pixel(5, 40), Some(WHITE));
}

#[test]
fn glyph_off_the_panel_draws_nothing() {
    let font = Font::new();
    let mut fb = FrameBuffer::new();
    draw_char(&mut fb, &font, 'H', 200, 40, WHITE);
    draw_char(&mut fb, &font, 'H', 10, 1000, WHITE);
    draw_char(&mut fb, &font, 'H', usize::MAX - 5, usize::MAX - 7, WHITE);
    for y in 0..MATRIX_HEIGHT {
        for x in 0..MATRIX_WIDTH {
            assert_eq!(fb.get_pixel(x, y), Some(BLACK));
        }
    }
    draw_char(&mut fb, &font, 'H', 85, 84, WHITE);
    assert_eq!(fb.get_pixel(85, 84), Some(WHITE));
    assert_eq!(fb.get_pixel(87, 84), Some(BLACK));
    assert_eq!(fb.get_pixel(85, 87), Some(WHITE));
}
