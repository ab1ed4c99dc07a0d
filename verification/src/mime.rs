//! The supported codecs, keyed by file extension (case-sensitive), and the
//! mapping from an extension to the codec used for encoding.

use vstd::prelude::*;

verus! {

/// The codec implied by a file extension.
#[derive(Clone, Copy, PartialEq, Eq, Structural, Debug)]
pub enum ImageKind {
    Png,
    Jpeg,
    WebP,
    Bmp,
}

/// One supported extension together with its codec.
pub struct MimeType<'a> {
    pub extension: &'a str,
    pub format: ImageKind,
}

/// The codec for a file extension, or `None` when the extension names no
/// supported codec.
pub open spec fn spec_format_for(ext: Seq<char>) -> Option<ImageKind> {
    if ext == "png"@ {
        Some(ImageKind::Png)
    } else if ext == "jpeg"@ {
        Some(ImageKind::Jpeg)
    } else if ext == "jpg"@ {
        Some(ImageKind::Jpeg)
    } else if ext == "webp"@ {
        Some(ImageKind::WebP)
    } else if ext == "bmp"@ {
        Some(ImageKind::Bmp)
    } else {
        None
    }
}

/// Character-by-character string comparison.
pub fn str_eq(a: &str, b: &str) -> (r: bool)
    ensures
        r == (a@ == b@),
{
    let na = a.unicode_len();
    let nb = b.unicode_len();
    if na != nb {
        return false;
    }
    let mut i: usize = 0;
    while i < na
        invariant
            i <= na,
            na == a@.len(),
            na == b@.len(),
            forall|j: int| 0 <= j < i ==> a@[j] == b@[j],
        decreases na - i,
    {
        if a.get_char(i) != b.get_char(i) {
            return false;
        }
        i = i + 1;
    }
    proof {
        assert(a@ =~= b@);
    }
    true
}

/// Look up the codec for a file extension among the supported mimetypes.
pub fn format_for_extension(ext: &str) -> (r: Option<ImageKind>)
    ensures
        r == spec_format_for(ext@),
{
    if str_eq(ext, "png") {
        Some(ImageKind::Png)
    } else if str_eq(ext, "jpeg") {
        Some(ImageKind::Jpeg)
    } else if str_eq(ext, "jpg") {
        Some(ImageKind::Jpeg)
    } else if str_eq(ext, "webp") {
        Some(ImageKind::WebP)
    } else if str_eq(ext, "bmp") {
        Some(ImageKind::Bmp)
    } else {
        None
    }
}

/// The accepted mimetypes, in lookup order: one entry per supported
/// extension, each mapped to its codec.
pub fn accepted_mimetypes() -> (r: Vec<MimeType<'static>>)
    ensures
        r@.len() == 5,
        r@[0].extension@ == "png"@ && r@[0].format == ImageKind::Png,
        r@[1].extension@ == "jpeg"@ && r@[1].format == ImageKind::Jpeg,
        r@[2].extension@ == "jpg"@ && r@[2].format == ImageKind::Jpeg,
        r@[3].extension@ == "webp"@ && r@[3].format == ImageKind::WebP,
        r@[4].extension@ == "bmp"@ && r@[4].format == ImageKind::Bmp,
        forall|i: int|
            0 <= i < 5 ==> spec_format_for(#[trigger] r@[i].extension@) == Some(r@[i].format),
{
    let mut r: Vec<MimeType<'static>> = Vec::new();
    r.push(MimeType { extension: "png", format: ImageKind::Png });
    r.push(MimeType { extension: "jpeg", format: ImageKind::Jpeg });
    r.push(MimeType { extension: "jpg", format: ImageKind::Jpeg });
    r.push(MimeType { extension: "webp", format: ImageKind::WebP });
    r.push(MimeType { extension: "bmp", format: ImageKind::Bmp });
    proof {
        reveal_strlit("png");
        reveal_strlit("jpeg");
        reveal_strlit("jpg");
        reveal_strlit("webp");
        reveal_strlit("bmp");
        assert("png"@.len() == 3 && "jpeg"@.len() == 4 && "jpg"@.len() == 3 && "webp"@.len() == 4
            && "bmp"@.len() == 3);
        assert("jpg"@[0] == 'j' && "png"@[0] == 'p' && "bmp"@[0] == 'b');
        assert("jpeg"@[0] == 'j' && "webp"@[0] == 'w');
        assert(spec_format_for("png"@) == Some(ImageKind::Png));
        assert(spec_format_for("jpeg"@) == Some(ImageKind::Jpeg));
        assert(spec_format_for("jpg"@) == Some(ImageKind::Jpeg));
        assert(spec_format_for("webp"@) == Some(ImageKind::WebP));
        assert(spec_format_for("bmp"@) == Some(ImageKind::Bmp));
        assert forall|i: int|
            0 <= i < 5 implies spec_format_for(#[trigger] r@[i].extension@) == Some(
            r@[i].format,
        ) by {
            if i == 0 {
                assert(r@[i].extension@ == "png"@);
            } else if i == 1 {
                assert(r@[i].extension@ == "jpeg"@);
            } else if i == 2 {
                assert(r@[i].extension@ == "jpg"@);
            } else if i == 3 {
                assert(r@[i].extension@ == "webp"@);
            } else {
                assert(r@[i].extension@ == "bmp"@);
            }
        }
    }
    r
}

} // verus!
