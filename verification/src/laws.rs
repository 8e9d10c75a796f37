//! Properties that hold of counting, beyond the counters' own contracts.

use vstd::prelude::*;
use crate::batch::{outcome_matches, FileInput, FileOutcome};
use crate::count::{
    all_rows_ok, result_matches, spec_error_count, spec_is_error_row, DecodeError, Mode,
};
use crate::parse::spec_data_rows;

verus! {

/// A file none of whose data rows is an ERROR-level row reports count 0.
pub proof fn lemma_no_error_rows_count_zero(rows: Seq<Seq<u8>>)
    requires
        forall|i: int| 0 <= i < rows.len() ==> !spec_is_error_row(#[trigger] rows[i]),
    ensures
        spec_error_count(rows) == 0,
    decreases rows.len(),
{
    if rows.len() > 0 {
        assert(forall|i: int|
            0 <= i < rows.len() - 1 ==> rows.drop_last()[i] == rows[i]);
        lemma_no_error_rows_count_zero(rows.drop_last());
    }
}

/// The predicate that singles out ERROR-level rows, as a value.
pub open spec fn is_error_row_pred() -> spec_fn(Seq<u8>) -> bool {
    |row: Seq<u8>| spec_is_error_row(row)
}

/// The reported count is the number of rows whose `level` field exactly
/// matches `"ERROR"`: the length of the subsequence of such rows.
pub proof fn lemma_count_is_matching_rows(rows: Seq<Seq<u8>>)
    ensures
        spec_error_count(rows) == rows.filter(is_error_row_pred()).len(),
    decreases rows.len(),
{
    reveal(Seq::filter);
    if rows.len() > 0 {
        lemma_count_is_matching_rows(rows.drop_last());
    }
}

/// Counting is deterministic: the contract of [`crate::count::count_errors`]
/// admits exactly one result per input, so processing the same contents
/// twice under the same mode yields the same result both times.
pub proof fn lemma_count_deterministic(
    s: Seq<u8>,
    mode: Mode,
    r1: Result<u64, DecodeError>,
    r2: Result<u64, DecodeError>,
)
    requires
        result_matches(s, mode, r1),
        result_matches(s, mode, r2),
    ensures
        r1 == r2,
{
}

/// A file with no data rows (at most a header line) yields count 0 in
/// either mode, never an error.
pub proof fn lemma_no_data_rows_count_zero(s: Seq<u8>, mode: Mode)
    requires
        spec_data_rows(s).len() == 0,
    ensures
        result_matches(s, mode, Ok(0)),
{
}

/// On a well-formed file — one whose every data row decodes — strict and
/// lenient counting report the same count.
pub proof fn lemma_modes_agree_on_well_formed(s: Seq<u8>, r: Result<u64, DecodeError>)
    requires
        all_rows_ok(spec_data_rows(s)),
        result_matches(s, Mode::Strict, r),
    ensures
        result_matches(s, Mode::Lenient, r),
{
}

/// Batch isolation: a readable file's outcome is pinned by its own
/// contents and the mode alone, so no other file of the batch can affect
/// it.
pub proof fn lemma_batch_isolation(
    inp: FileInput,
    mode: Mode,
    o1: FileOutcome,
    o2: FileOutcome,
)
    requires
        inp is Content,
        outcome_matches(inp, mode, o1),
        outcome_matches(inp, mode, o2),
    ensures
        o1 == o2,
{
    let c = inp->Content_0;
    let r1 = match o1 {
        FileOutcome::Count(n) => Ok::<u64, DecodeError>(n),
        FileOutcome::DecodeError(e) => Err(e),
        FileOutcome::OpenError(_) => Ok(0),
    };
    let r2 = match o2 {
        FileOutcome::Count(n) => Ok::<u64, DecodeError>(n),
        FileOutcome::DecodeError(e) => Err(e),
        FileOutcome::OpenError(_) => Ok(0),
    };
    lemma_count_deterministic(c@, mode, r1, r2);
}

} // verus!
