use watermarker::pixel::{blend, Pixel};

fn px(r: u8, g: u8, b: u8, a: u8) -> Pixel {
    Pixel { r, g, b, a }
}

#[test]
fn transparent_overlay_is_noop() {
    let base = px(10, 20, 30, 255);
    let over = px(200, 100, 50, 0);
    assert_eq!(blend(base, over), base);
}

#[test]
fn transparent_overlay_is_noop_on_translucent_base() {
    let base = px(1, 2, 3, 77);
    let over = px(255, 255, 255, 0);
    assert_eq!(blend(base, over), base);
}

#[test]
fn opaque_overlay_replaces_base() {
    let base = px(10, 20, 30, 255);
    let over = px(200, 100, 50, 255);
    assert_eq!(blend(base, over), over);
}

#[test]
fn half_alpha_blends_proportionally() {
    // channel = (100 * 128 + 0 * 127 + 127) / 255 = 50
    let base = px(0, 0, 0, 255);
    let over = px(100, 100, 100, 128);
    assert_eq!(blend(base, over), px(50, 50, 50, 255));
}

#[test]
fn partial_alpha_exact_values() {
    // r: (50*80 + 10*175 + 127) / 255 = 23
    // g: (60*80 + 20*175 + 127) / 255 = 33
    // b: (70*80 + 30*175 + 127) / 255 = 43
    // a: 80 + (40*175 + 127) / 255 = 107
    let base = px(10, 20, 30, 40);
    let over = px(50, 60, 70, 80);
    assert_eq!(blend(base, over), px(23, 33, 43, 107));
}

#[test]
fn blend_is_deterministic() {
    let base = px(91, 47, 183, 201);
    let over = px(14, 220, 3, 99);
    assert_eq!(blend(base, over), blend(base, over));
}
