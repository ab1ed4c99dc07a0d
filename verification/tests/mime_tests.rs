use watermarker::mime::{accepted_mimetypes, format_for_extension, str_eq, ImageKind};

#[test]
fn every_supported_extension_maps_to_its_codec() {
    assert_eq!(format_for_extension("png"), Some(ImageKind::Png));
    assert_eq!(format_for_extension("jpeg"), Some(ImageKind::Jpeg));
    assert_eq!(format_for_extension("jpg"), Some(ImageKind::Jpeg));
    assert_eq!(format_for_extension("webp"), Some(ImageKind::WebP));
    assert_eq!(format_for_extension("bmp"), Some(ImageKind::Bmp));
}

#[test]
fn unsupported_extensions_map_to_none() {
    assert_eq!(format_for_extension("gif"), None);
    assert_eq!(format_for_extension("tiff"), None);
    assert_eq!(format_for_extension(""), None);
}

#[test]
fn extension_lookup_is_case_sensitive() {
    assert_eq!(format_for_extension("PNG"), None);
    assert_eq!(format_for_extension("Jpg"), None);
}

#[test]
fn accepted_mimetypes_table() {
    let table = accepted_mimetypes();
    let entries: Vec<(&str, ImageKind)> =
        table.iter().map(|m| (m.extension, m.format)).collect();
    assert_eq!(
        entries,
        vec![
            ("png", ImageKind::Png),
            ("jpeg", ImageKind::Jpeg),
            ("jpg", ImageKind::Jpeg),
            ("webp", ImageKind::WebP),
            ("bmp", ImageKind::Bmp),
        ]
    );
}

#[test]
fn str_eq_agrees_with_string_equality() {
    assert!(str_eq("", ""));
    assert!(str_eq("abc", "abc"));
    assert!(!str_eq("abc", "abd"));
    assert!(!str_eq("abc", "ab"));
    assert!(!str_eq("", "x"));
}
