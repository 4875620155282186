use gifterm::area::resize_area;
use gifterm::frame::Frame;

fn frame(width: u32, height: u32, pixels: Vec<u8>) -> Frame {
    Frame { width, height, pixels, delay_ns: 70_000_000 }
}

#[test]
fn white_square_averages_to_white() {
    let f = frame(2, 2, vec![255; 16]);
    let r = resize_area(&f, 1, 1);
    assert_eq!((r.width, r.height), (1, 1));
    assert_eq!(r.pixels, vec![255, 255, 255, 255]);
    assert_eq!(r.delay_ns, 70_000_000);
}

#[test]
fn uniform_alpha_is_kept() {
    let f = frame(2, 2, [255u8, 255, 255, 128].repeat(4));
    let r = resize_area(&f, 1, 1);
    assert_eq!(r.pixels, vec![255, 255, 255, 128]);
}

#[test]
fn same_size_is_identity() {
    let pixels: Vec<u8> = (0..24u8).map(|v| v.wrapping_mul(37)).collect();
    let f = frame(3, 2, pixels.clone());
    let r = resize_area(&f, 3, 2);
    assert_eq!(r.pixels, pixels);
}

#[test]
fn uniform_region_keeps_its_colour() {
    // Left half 4x4 is (10, 20, 30, 40), right half 4x4 is (200, 100, 50, 255).
    let mut pixels = Vec::new();
    for _y in 0..4 {
        for x in 0..8 {
            if x < 4 {
                pixels.extend_from_slice(&[10, 20, 30, 40]);
            } else {
                pixels.extend_from_slice(&[200, 100, 50, 255]);
            }
        }
    }
    let r = resize_area(&frame(8, 4, pixels), 2, 2);
    assert_eq!(&r.pixels[0..4], &[10, 20, 30, 40]);
    assert_eq!(&r.pixels[4..8], &[200, 100, 50, 255]);
    assert_eq!(&r.pixels[8..12], &[10, 20, 30, 40]);
    assert_eq!(&r.pixels[12..16], &[200, 100, 50, 255]);
}

#[test]
fn mean_is_truncated() {
    // Channel values 0, 10, 20, 31 average to 15.25, and 0, 1, 1, 1 to 0.75.
    let pixels = vec![0, 0, 9, 9, 10, 1, 9, 9, 20, 1, 9, 9, 31, 1, 9, 9];
    let r = resize_area(&frame(2, 2, pixels), 1, 1);
    assert_eq!(r.pixels, vec![15, 0, 9, 9]);
}

#[test]
fn uneven_boxes_cover_the_source() {
    // A 3x1 row averaged to 2x1: boxes are columns [0, 1) and [1, 3).
    let pixels = vec![30, 0, 0, 0, 60, 0, 0, 0, 91, 0, 0, 0];
    let r = resize_area(&frame(3, 1, pixels), 2, 1);
    assert_eq!(r.pixels, vec![30, 0, 0, 0, 75, 0, 0, 0]);
}
