use watermarker::geometry::{Region, ValidationError};
use watermarker::pixel::{blend, Pixel};
use watermarker::raster::ImageBuf;
use watermarker::task::{apply_watermark, compute_image};

fn px(r: u8, g: u8, b: u8, a: u8) -> Pixel {
    Pixel { r, g, b, a }
}

#[test]
fn opaque_watermark_bottom_right_corner() {
    // Base 100x100 opaque, watermark 20x20 fully opaque solid colour,
    // padding 20: region is x in [60,80), y in [80,100); inside it the output
    // equals the watermark colour, everywhere else the base colour.
    let base_colour = px(10, 20, 30, 255);
    let wm_colour = px(200, 50, 50, 255);
    let base = ImageBuf::new(100, 100, base_colour);
    let wm = ImageBuf::new(20, 20, wm_colour);
    let out = apply_watermark(&base, &wm).unwrap();
    assert_eq!(out.width, 100);
    assert_eq!(out.height, 100);
    for y in 0..100u32 {
        for x in 0..100u32 {
            let expected = if (60..80).contains(&x) && (80..100).contains(&y) {
                wm_colour
            } else {
                base_colour
            };
            assert_eq!(out.get_pixel(x, y), expected);
        }
    }
}

#[test]
fn transparent_watermark_changes_nothing() {
    let base_colour = px(7, 8, 9, 200);
    let base = ImageBuf::new(60, 60, base_colour);
    let wm = ImageBuf::new(10, 10, px(255, 0, 0, 0));
    let out = apply_watermark(&base, &wm).unwrap();
    for y in 0..60u32 {
        for x in 0..60u32 {
            assert_eq!(out.get_pixel(x, y), base_colour);
        }
    }
}

#[test]
fn translucent_watermark_blends_inside_region_only() {
    let base_colour = px(0, 0, 0, 255);
    let wm_colour = px(100, 100, 100, 128);
    let base = ImageBuf::new(50, 50, base_colour);
    let wm = ImageBuf::new(5, 5, wm_colour);
    let out = apply_watermark(&base, &wm).unwrap();
    let blended = blend(base_colour, wm_colour);
    assert_eq!(blended, px(50, 50, 50, 255));
    for y in 0..50u32 {
        for x in 0..50u32 {
            let inside = (25..30).contains(&x) && (30..35).contains(&y);
            let expected = if inside { blended } else { base_colour };
            assert_eq!(out.get_pixel(x, y), expected);
        }
    }
}

#[test]
fn mixed_alpha_watermark_per_pixel() {
    let base_colour = px(10, 10, 10, 255);
    let base = ImageBuf::new(30, 30, base_colour);
    let mut wm = ImageBuf::new(2, 2, px(0, 0, 0, 0));
    wm.put_pixel(0, 0, px(250, 0, 0, 255));
    wm.put_pixel(1, 0, px(0, 250, 0, 0));
    wm.put_pixel(0, 1, px(0, 0, 250, 128));
    wm.put_pixel(1, 1, px(9, 9, 9, 255));
    let out = apply_watermark(&base, &wm).unwrap();
    // Region: x in [8,10), y in [10,12).
    assert_eq!(out.get_pixel(8, 10), px(250, 0, 0, 255));
    assert_eq!(out.get_pixel(9, 10), base_colour);
    assert_eq!(out.get_pixel(8, 11), blend(base_colour, px(0, 0, 250, 128)));
    assert_eq!(out.get_pixel(9, 11), px(9, 9, 9, 255));
    assert_eq!(out.get_pixel(7, 10), base_colour);
    assert_eq!(out.get_pixel(8, 12), base_colour);
}

#[test]
fn watermark_taller_than_padding_is_rejected() {
    let base = ImageBuf::new(100, 100, px(1, 1, 1, 255));
    let wm = ImageBuf::new(10, 30, px(2, 2, 2, 255));
    assert_eq!(
        apply_watermark(&base, &wm).err(),
        Some(ValidationError::InvalidGeometry)
    );
}

#[test]
fn watermark_wider_than_base_minus_padding_is_rejected() {
    let base = ImageBuf::new(100, 100, px(1, 1, 1, 255));
    let wm = ImageBuf::new(81, 10, px(2, 2, 2, 255));
    assert_eq!(
        apply_watermark(&base, &wm).err(),
        Some(ValidationError::InvalidGeometry)
    );
}

#[test]
fn region_larger_than_watermark_tiles_by_step_count() {
    // compute_image tolerates a region wider than one watermark tile: the
    // cursor advances once per pixel and wraps by step count, so in a 4-wide
    // region a 2x2 watermark's second row appears already in the first region
    // row, after two advances.
    let base = ImageBuf::new(4, 2, px(0, 0, 0, 255));
    let mut wm = ImageBuf::new(2, 2, px(0, 0, 0, 0));
    let c00 = px(10, 0, 0, 255);
    let c10 = px(20, 0, 0, 255);
    let c01 = px(30, 0, 0, 255);
    let c11 = px(40, 0, 0, 255);
    wm.put_pixel(0, 0, c00);
    wm.put_pixel(1, 0, c10);
    wm.put_pixel(0, 1, c01);
    wm.put_pixel(1, 1, c11);
    let reg = Region { x_min: 0, x_max: 4, y_min: 0, y_max: 2 };
    let out = compute_image(&base, &wm, &reg);
    assert_eq!(out.get_pixel(0, 0), c00);
    assert_eq!(out.get_pixel(1, 0), c10);
    assert_eq!(out.get_pixel(2, 0), c01);
    assert_eq!(out.get_pixel(3, 0), c11);
    assert_eq!(out.get_pixel(0, 1), c00);
    assert_eq!(out.get_pixel(1, 1), c10);
    assert_eq!(out.get_pixel(2, 1), c01);
    assert_eq!(out.get_pixel(3, 1), c11);
}

#[test]
fn output_is_full_size_copy_outside_region() {
    let mut base = ImageBuf::new(41, 41, px(5, 5, 5, 255));
    base.put_pixel(0, 0, px(1, 2, 3, 4));
    let wm = ImageBuf::new(20, 20, px(9, 9, 9, 255));
    let out = apply_watermark(&base, &wm).unwrap();
    assert_eq!(out.width, 41);
    assert_eq!(out.height, 41);
    // The corner pixel outside the region passes through exactly.
    assert_eq!(out.get_pixel(0, 0), px(1, 2, 3, 4));
}
