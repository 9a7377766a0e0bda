use led_matrix::framebuffer::{FrameBuffer, Pixel};
use led_matrix::{LedMatrix, Step, Timing, MATRIX_HEIGHT, MATRIX_WIDTH};

fn driver() -> LedMatrix {
    let mut out: Vec<Step> = Vec::new();
    LedMatrix::new(Timing::standard(), &mut out)
}

fn is_dark(m: &LedMatrix) -> bool {
    (0..MATRIX_HEIGHT).all(|y| {
        (0..MATRIX_WIDTH).all(|x| m.get_pixel(x, y) == Some(Pixel { r: 0, g: 0, b: 0 }))
    })
}

#[test]
fn set_pixel_then_read_back() {
    let mut m = driver();
    m.set_pixel(3, 7, 1, 2, 3);
    m.set_pixel(87, 87, 0xFFFF, 0, 0x8000);
    assert_eq!(m.get_pixel(3, 7), Some(Pixel { r: 1, g: 2, b: 3 }));
    assert_eq!(m.get_pixel(87, 87), Some(Pixel { r: 0xFFFF, g: 0, b: 0x8000 }));
    assert_eq!(m.get_pixel(7, 3), Some(Pixel { r: 0, g: 0, b: 0 }));
}

#[test]
fn set_pixel_out_of_bounds_is_ignored() {
    let mut m = driver();
    m.set_pixel(88, 0, 9, 9, 9);
    m.set_pixel(0, 88, 9, 9, 9);
    m.set_pixel(usize::MAX, usize::MAX, 9, 9, 9);
    assert!(is_dark(&m));
    assert_eq!(m.get_pixel(88, 0), None);
    assert_eq!(m.get_pixel(0, 88), None);
}

#[test]
fn clear_darkens_everything() {
    let mut m = driver();
    m.fill_rect(0, 0, 87, 87, 5, 6, 7);
    m.display_text("ABC");
    m.clear();
    assert!(is_dark(&m));
}

#[test]
fn fill_rect_is_inclusive_and_clipped() {
    let mut m = driver();
    m.fill_rect(80, 2, 200, 3, 1, 1, 1);
    for y in 0..MATRIX_HEIGHT {
        for x in 0..MATRIX_WIDTH {
            let lit = (80..=87).contains(&x) && (2..=3).contains(&y);
            let want = if lit { Pixel { r: 1, g: 1, b: 1 } } else { Pixel { r: 0, g: 0, b: 0 } };
            assert_eq!(m.get_pixel(x, y), Some(want), "cell ({}, {})", x, y);
        }
    }
}

#[test]
fn fill_rect_with_reversed_corners_draws_nothing() {
    let mut m = driver();
    m.fill_rect(10, 10, 5, 20, 1, 1, 1);
    m.fill_rect(100, 100, 200, 200, 1, 1, 1);
    assert!(is_dark(&m));
}

#[test]
fn frame_buffer_accessors() {
    let mut fb = FrameBuffer::new();
    fb.set_pixel(1, 2, Pixel { r: 4, g: 5, b: 6 });
    assert_eq!(fb.get_pixel(1, 2), Some(Pixel { r: 4, g: 5, b: 6 }));
    fb.clear();
    assert_eq!(fb.get_pixel(1, 2), Some(Pixel { r: 0, g: 0, b: 0 }));
}
