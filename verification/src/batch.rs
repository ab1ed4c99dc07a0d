//! Batch-level rules: eager validation of every input before any task is
//! dispatched, the per-task progress figure, and the aggregation of task
//! results into a final summary with partial-success semantics.

use crate::geometry::ValidationError;
use crate::mime::{format_for_extension, spec_format_for};
use crate::paths::{last_index_of, lemma_last_index_bounds, rfind_char};
use vstd::arithmetic::div_mod::{lemma_div_is_ordered, lemma_fundamental_div_mod_converse};
use vstd::prelude::*;

verus! {

/// The extension of a path: everything after its last `'.'`.
pub open spec fn path_extension(s: Seq<char>) -> Seq<char>
    recommends
        last_index_of(s, '.') >= 0,
{
    s.subrange(last_index_of(s, '.') + 1, s.len() as int)
}

/// A path is a valid image input when it has an extension and the extension
/// names a supported codec.
pub open spec fn valid_image_path(s: Seq<char>) -> bool {
    last_index_of(s, '.') >= 0 && spec_format_for(path_extension(s)) is Some
}

/// Check every input path before any task starts: succeeds exactly when all
/// paths carry a supported extension; otherwise reports the first offending
/// path's position, and whether its extension was missing or unsupported.
pub fn validate_paths(paths: &Vec<String>) -> (r: Result<(), (usize, ValidationError)>)
    ensures
        r is Ok <==> (forall|i: int|
            0 <= i < paths@.len() ==> #[trigger] valid_image_path(paths@[i]@)),
        r matches Err(bad) ==> {
            &&& 0 <= bad.0 < paths@.len()
            &&& !valid_image_path(paths@[bad.0 as int]@)
            &&& forall|j: int| 0 <= j < bad.0 ==> #[trigger] valid_image_path(paths@[j]@)
            &&& bad.1 == (if last_index_of(paths@[bad.0 as int]@, '.') < 0 {
                ValidationError::MissingExtension
            } else {
                ValidationError::UnsupportedExtension
            })
        },
{
    let n = paths.len();
    let mut i: usize = 0;
    while i < n
        invariant
            i <= n,
            n == paths@.len(),
            forall|j: int| 0 <= j < i ==> #[trigger] valid_image_path(paths@[j]@),
        decreases n - i,
    {
        let p: &str = paths[i].as_str();
        proof {
            lemma_last_index_bounds(p@, '.', p@.len() as int);
        }
        match rfind_char(p, '.') {
            None => {
                proof {
                    assert(!valid_image_path(paths@[i as int]@));
                }
                return Err((i, ValidationError::MissingExtension));
            },
            Some(d) => {
                let len = p.unicode_len();
                let ext = p.substring_char(d + 1, len);
                if format_for_extension(ext).is_none() {
                    proof {
                        assert(ext@ == path_extension(paths@[i as int]@));
                        assert(!valid_image_path(paths@[i as int]@));
                    }
                    return Err((i, ValidationError::UnsupportedExtension));
                }
                proof {
                    assert(ext@ == path_extension(paths@[i as int]@));
                    assert(valid_image_path(paths@[i as int]@));
                }
            },
        }
        i = i + 1;
    }
    Ok(())
}

/// Check that the watermark is strictly smaller than every base image along
/// both axes; `dims` holds each base image's width and height.
pub fn validate_dimensions(dims: &Vec<(u32, u32)>, wm_w: u32, wm_h: u32) -> (r: bool)
    ensures
        r <==> (forall|i: int|
            0 <= i < dims@.len() ==> wm_w < #[trigger] dims@[i].0 && wm_h < dims@[i].1),
{
    let n = dims.len();
    let mut i: usize = 0;
    while i < n
        invariant
            i <= n,
            n == dims@.len(),
            forall|j: int| 0 <= j < i ==> wm_w < #[trigger] dims@[j].0 && wm_h < dims@[j].1,
        decreases n - i,
    {
        let (w, h) = dims[i];
        if w <= wm_w || h <= wm_h {
            return false;
        }
        i = i + 1;
    }
    true
}

/// How one image task failed.
#[derive(Clone, Copy, PartialEq, Eq, Structural, Debug)]
pub enum TaskError {
    /// The input image could not be decoded.
    Decode,
    /// The input's extension names no codec the encoder supports.
    UnsupportedFormat,
    /// The output file could not be written.
    Write,
}

/// What a finished batch reports: how many tasks wrote their output file and
/// how many failed. One task's failure never cancels its siblings, so both
/// counts can be positive at once.
#[derive(Clone, Copy, PartialEq, Eq, Structural, Debug)]
pub struct BatchSummary {
    pub succeeded: usize,
    pub failed: usize,
}

/// How many task results are successes.
pub open spec fn count_ok(rs: Seq<Result<String, TaskError>>) -> int
    decreases rs.len(),
{
    if rs.len() == 0 {
        0
    } else {
        count_ok(rs.drop_last()) + if rs.last() is Ok {
            1int
        } else {
            0int
        }
    }
}

/// The success count never exceeds the number of results.
pub proof fn lemma_count_ok_bounds(rs: Seq<Result<String, TaskError>>)
    ensures
        0 <= count_ok(rs) <= rs.len(),
    decreases rs.len(),
{
    if rs.len() > 0 {
        lemma_count_ok_bounds(rs.drop_last());
    }
}

/// Aggregate every task's result after all tasks have completed: the summary
/// counts the successes and the failures, and together they account for
/// every dispatched task.
pub fn summarize(results: &Vec<Result<String, TaskError>>) -> (s: BatchSummary)
    ensures
        s.succeeded == count_ok(results@),
        s.failed == results@.len() - count_ok(results@),
{
    let n = results.len();
    let mut succeeded: usize = 0;
    let mut i: usize = 0;
    while i < n
        invariant
            i <= n,
            n == results@.len(),
            succeeded == count_ok(results@.take(i as int)),
            succeeded <= i,
        decreases n - i,
    {
        proof {
            assert(results@.take(i + 1).drop_last() =~= results@.take(i as int));
            assert(results@.take(i + 1).last() == results@[i as int]);
        }
        if results[i].is_ok() {
            succeeded = succeeded + 1;
        }
        i = i + 1;
    }
    proof {
        assert(results@.take(n as int) =~= results@);
        lemma_count_ok_bounds(results@);
    }
    BatchSummary { succeeded, failed: n - succeeded }
}

/// The process exit code for a finished batch: zero exactly on full success;
/// any failed task, even beside successes, makes the exit non-zero.
pub fn exit_code(s: &BatchSummary) -> (r: i32)
    ensures
        r == (if s.failed == 0 {
            0i32
        } else {
            1i32
        }),
{
    if s.failed == 0 {
        0
    } else {
        1
    }
}

/// The progress figure shown for one task: the percentage of target-region
/// pixels processed so far, rounded down.
pub fn progress_percent(done: u64, total: u64) -> (r: u64)
    requires
        1 <= total,
        done <= total,
    ensures
        r == done as int * 100 / total as int,
        r <= 100,
{
    proof {
        assert(done as int * 100 <= total as int * 100);
        lemma_div_is_ordered(done as int * 100, total as int * 100, total as int);
        lemma_fundamental_div_mod_converse(total as int * 100, total as int, 100, 0);
    }
    ((done as u128 * 100) / (total as u128)) as u64
}

} // verus!
