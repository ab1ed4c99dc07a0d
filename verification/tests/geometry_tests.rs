use watermarker::geometry::{compute_region, Region, ValidationError};

#[test]
fn region_for_hundred_square_base() {
    // 100x100 base, 20x20 watermark, padding 20: x in [60,80), y in [80,100).
    let r = compute_region(100, 100, 20, 20).unwrap();
    assert_eq!(r, Region { x_min: 60, x_max: 80, y_min: 80, y_max: 100 });
}

#[test]
fn region_spans_watermark_dimensions() {
    let r = compute_region(640, 480, 32, 16).unwrap();
    assert_eq!(r.x_max - r.x_min, 32);
    assert_eq!(r.y_max - r.y_min, 16);
}

#[test]
fn region_inside_base_when_watermark_under_padding() {
    // 50x10 watermark, well under base minus padding, height under padding.
    let r = compute_region(100, 100, 50, 10).unwrap();
    assert!(r.x_max <= 100);
    assert!(r.y_max <= 100);
}

#[test]
fn too_wide_watermark_is_invalid_geometry() {
    assert_eq!(
        compute_region(100, 100, 81, 10),
        Err(ValidationError::InvalidGeometry)
    );
}

#[test]
fn too_tall_watermark_is_invalid_geometry() {
    assert_eq!(
        compute_region(100, 100, 10, 81),
        Err(ValidationError::InvalidGeometry)
    );
}

#[test]
fn watermark_filling_base_minus_padding_is_accepted() {
    let r = compute_region(100, 100, 80, 80).unwrap();
    assert_eq!(r, Region { x_min: 0, x_max: 80, y_min: 80, y_max: 160 });
}
