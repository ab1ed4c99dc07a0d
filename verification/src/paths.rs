//! Path inspection: locating the extension separator, splitting a path into
//! file stem and extension, and deriving the output file name.

use vstd::prelude::*;

verus! {

/// The position of the first `'.'` in `s` at or after `from`, or `-1` when
/// there is none.
pub open spec fn first_index_from(s: Seq<char>, c: char, from: int) -> int
    decreases s.len() - from,
{
    if from < 0 || from >= s.len() {
        -1
    } else if s[from] == c {
        from
    } else {
        first_index_from(s, c, from + 1)
    }
}

/// The position of the last `c` in `s` strictly before `upto`, or `-1` when
/// there is none.
pub open spec fn last_index_before(s: Seq<char>, c: char, upto: int) -> int
    decreases upto,
{
    if upto <= 0 || upto > s.len() {
        -1
    } else if s[upto - 1] == c {
        upto - 1
    } else {
        last_index_before(s, c, upto - 1)
    }
}

/// The position of the last `c` in `s`, or `-1` when there is none.
pub open spec fn last_index_of(s: Seq<char>, c: char) -> int {
    last_index_before(s, c, s.len() as int)
}

/// `last_index_before` returns `-1` or a position inside the sequence,
/// strictly below `upto`.
pub proof fn lemma_last_index_bounds(s: Seq<char>, c: char, upto: int)
    ensures
        last_index_before(s, c, upto) >= -1,
        last_index_before(s, c, upto) >= 0 ==> last_index_before(s, c, upto) < upto
            && last_index_before(s, c, upto) < s.len(),
    decreases upto,
{
    if upto <= 0 || upto > s.len() {
    } else if s[upto - 1] == c {
    } else {
        lemma_last_index_bounds(s, c, upto - 1);
    }
}

/// The position, counted from the second character, of the first `'.'` that
/// appears at or after the second character of `path`; `Err(-1)` when the
/// path has no such separator.
pub fn get_mime_index(path: &str) -> (r: Result<usize, i32>)
    ensures
        first_index_from(path@, '.', 1) >= 0 ==> r == Ok::<usize, i32>(
            (first_index_from(path@, '.', 1) - 1) as usize,
        ),
        first_index_from(path@, '.', 1) == -1 ==> r == Err::<usize, i32>(-1i32),
{
    let n = path.unicode_len();
    let mut i: usize = 1;
    while i < n
        invariant
            1 <= i,
            n == path@.len(),
            first_index_from(path@, '.', 1) == first_index_from(path@, '.', i as int),
        decreases n - i,
    {
        if path.get_char(i) == '.' {
            return Ok(i - 1);
        }
        i = i + 1;
    }
    Err(-1)
}

/// Split a path into the file stem (what stands between the last `'/'` and
/// the last `'.'`) and the extension (what follows the last `'.'`). `None`
/// when the path has no `'.'`, or when its last `'/'` comes after the last
/// `'.'` so that no stem can be cut out.
pub fn split_stem_ext(path: &str) -> (r: Option<(String, String)>)
    ensures
        ({
            let dot = last_index_of(path@, '.');
            let start = last_index_of(path@, '/') + 1;
            &&& r is Some <==> dot >= 0 && start <= dot
            &&& r matches Some(se) ==> se.0@ == path@.subrange(start, dot) && se.1@
                == path@.subrange(dot + 1, path@.len() as int)
        }),
{
    let n = path.unicode_len();
    proof {
        lemma_last_index_bounds(path@, '.', path@.len() as int);
        lemma_last_index_bounds(path@, '/', path@.len() as int);
    }
    let dot = match rfind_char(path, '.') {
        Some(d) => d,
        None => {
            return None;
        },
    };
    let start = match rfind_char(path, '/') {
        Some(s) => s + 1,
        None => 0,
    };
    if start > dot {
        return None;
    }
    let stem = String::from_str(path.substring_char(start, dot));
    let ext = String::from_str(path.substring_char(dot + 1, n));
    Some((stem, ext))
}

/// The position of the last occurrence of `c` in `s`, or `None` when `c`
/// does not occur.
pub fn rfind_char(s: &str, c: char) -> (r: Option<usize>)
    ensures
        last_index_of(s@, c) >= 0 ==> r == Some(last_index_of(s@, c) as usize),
        last_index_of(s@, c) == -1 ==> r is None,
{
    let n = s.unicode_len();
    let mut i: usize = n;
    while i > 0
        invariant
            i <= n,
            n == s@.len(),
            last_index_of(s@, c) == last_index_before(s@, c, i as int),
        decreases i,
    {
        if s.get_char(i - 1) == c {
            return Some(i - 1);
        }
        i = i - 1;
    }
    None
}

/// The output file name for a processed image: the original stem, the
/// watermark marker, and the original extension.
pub fn output_filename(stem: &str, ext: &str) -> (r: String)
    ensures
        r@ == stem@ + "_WATERMARKED."@ + ext@,
{
    let s = String::from_str(stem);
    let s = s.concat("_WATERMARKED.");
    let s = s.concat(ext);
    proof {
        assert(s@ =~= stem@ + "_WATERMARKED."@ + ext@);
    }
    s
}

/// The full output path: the output file name placed under `outdir` when one
/// was given, and bare otherwise.
pub fn output_path(outdir: &str, stem: &str, ext: &str) -> (r: String)
    ensures
        outdir@.len() == 0 ==> r@ == stem@ + "_WATERMARKED."@ + ext@,
        outdir@.len() > 0 ==> r@ == outdir@ + "/"@ + stem@ + "_WATERMARKED."@ + ext@,
{
    let name = output_filename(stem, ext);
    if outdir.unicode_len() == 0 {
        name
    } else {
        let s = String::from_str(outdir);
        let s = s.concat("/");
        let s = s.concat(name.as_str());
        proof {
            assert(s@ =~= outdir@ + "/"@ + stem@ + "_WATERMARKED."@ + ext@);
        }
        s
    }
}

} // verus!
