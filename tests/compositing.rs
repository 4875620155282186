use gifterm::frame::{Cell, Frame, Rgb};
use gifterm::glyph::composite;

#[test]
fn upper_pixel_is_background_lower_is_foreground() {
    // One column, two rows: red above blue.
    let f = Frame { width: 1, height: 2, pixels: vec![255, 0, 0, 9, 0, 0, 255, 7], delay_ns: 5 };
    let r = composite(&f);
    assert_eq!((r.width, r.rows, r.delay_ns), (1, 1, 5));
    assert_eq!(
        r.cells,
        vec![Cell { fg: Rgb { r: 0, g: 0, b: 255 }, bg: Rgb { r: 255, g: 0, b: 0 } }]
    );
}

#[test]
fn grid_is_width_by_half_height() {
    let pixels: Vec<u8> = (0..(3 * 4 * 4)).map(|v| v as u8).collect();
    let f = Frame { width: 3, height: 4, pixels, delay_ns: 0 };
    let r = composite(&f);
    assert_eq!((r.width, r.rows), (3, 2));
    assert_eq!(r.cells.len(), 6);
    // Cell (x = 2, y = 1) takes pixel (2, 2) above and pixel (2, 3) below.
    let upper = 4 * (2 * 3 + 2);
    let lower = 4 * (3 * 3 + 2);
    assert_eq!(r.cells[5].bg, Rgb { r: upper as u8, g: upper as u8 + 1, b: upper as u8 + 2 });
    assert_eq!(r.cells[5].fg, Rgb { r: lower as u8, g: lower as u8 + 1, b: lower as u8 + 2 });
}
