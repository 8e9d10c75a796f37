//! Counting the ERROR-level rows of one file's contents.

use vstd::prelude::*;
use crate::parse::{spec_data_rows, split_lines};
use crate::record::{
    decode_row, spec_decode_row, spec_row_fault, spec_row_ok, DecodeErrorKind,
};

verus! {

/// The bytes of the literal `"ERROR"`.
pub open spec fn spec_error_level() -> Seq<u8> {
    seq![69u8, 82u8, 82u8, 79u8, 82u8]
}

/// Whether a level field is exactly the bytes of `"ERROR"`.
pub fn is_error_level(level: &[u8]) -> (r: bool)
    ensures
        r == (level@ == spec_error_level()),
{
    let r = level.len() == 5 && level[0] == 69 && level[1] == 82 && level[2] == 82
        && level[3] == 79 && level[4] == 82;
    proof {
        if r {
            assert(level@ =~= spec_error_level());
        }
    }
    r
}

/// Whether a row decodes and its `level` field is exactly `"ERROR"`.
pub open spec fn spec_is_error_row(row: Seq<u8>) -> bool {
    match spec_decode_row(row) {
        Some(rec) => rec.level == spec_error_level(),
        None => false,
    }
}

/// How many of the given rows decode with level `"ERROR"`.
pub open spec fn spec_error_count(rows: Seq<Seq<u8>>) -> nat
    decreases rows.len(),
{
    if rows.len() == 0 {
        0
    } else {
        spec_error_count(rows.drop_last()) + if spec_is_error_row(rows.last()) {
            1nat
        } else {
            0nat
        }
    }
}

/// How many of the given rows decode at all.
pub open spec fn spec_decoded_count(rows: Seq<Seq<u8>>) -> nat
    decreases rows.len(),
{
    if rows.len() == 0 {
        0
    } else {
        spec_decoded_count(rows.drop_last()) + if spec_row_ok(rows.last()) {
            1nat
        } else {
            0nat
        }
    }
}

pub open spec fn all_rows_ok(rows: Seq<Seq<u8>>) -> bool {
    forall|i: int| 0 <= i < rows.len() ==> spec_row_ok(#[trigger] rows[i])
}

/// The index of the first row that fails to decode (the length of `rows`
/// if every row decodes).
pub open spec fn spec_first_bad(rows: Seq<Seq<u8>>) -> int
    decreases rows.len(),
{
    if rows.len() == 0 {
        0
    } else if !spec_row_ok(rows[0]) {
        0
    } else {
        1 + spec_first_bad(rows.drop_first())
    }
}

pub proof fn lemma_first_bad_at(rows: Seq<Seq<u8>>, i: int)
    requires
        0 <= i < rows.len(),
        !spec_row_ok(rows[i]),
        forall|j: int| 0 <= j < i ==> spec_row_ok(#[trigger] rows[j]),
    ensures
        spec_first_bad(rows) == i,
    decreases i,
{
    if i > 0 {
        assert(forall|j: int|
            0 <= j < i - 1 ==> rows.drop_first()[j] == rows[j + 1]);
        lemma_first_bad_at(rows.drop_first(), i - 1);
    }
}

/// Why a whole file's count failed, and where: `line` is the 1-based line
/// number in the file (the header is line 1, the first data row line 2).
#[derive(Clone, Copy, Debug, PartialEq, Eq, Structural)]
pub struct DecodeError {
    pub line: usize,
    pub kind: DecodeErrorKind,
}

/// The error that strict-mode counting reports: the fault of the first
/// data row that fails to decode, with its line number in the file.
pub open spec fn spec_strict_error(s: Seq<u8>) -> DecodeError {
    let rows = spec_data_rows(s);
    let i = spec_first_bad(rows);
    DecodeError { line: (i + 2) as usize, kind: spec_row_fault(rows[i]) }
}

/// Exactly what strict-mode counting returns for contents `s`: the number
/// of ERROR-level rows when every data row decodes, and otherwise the
/// fault of the first row that does not. This predicate admits exactly one
/// result per input.
pub open spec fn strict_result_matches(s: Seq<u8>, r: Result<u64, DecodeError>) -> bool {
    match r {
        Ok(c) => all_rows_ok(spec_data_rows(s)) && c == spec_error_count(spec_data_rows(s)),
        Err(e) => !all_rows_ok(spec_data_rows(s)) && e == spec_strict_error(s),
    }
}

/// The decode-failure policy for one file.
#[derive(Clone, Copy, Debug, PartialEq, Eq, Structural)]
pub enum Mode {
    /// The first malformed row aborts the file's count (the default).
    Strict,
    /// Malformed rows are skipped and counting continues.
    Lenient,
}

/// Exactly what counting under the given mode returns for contents `s`.
pub open spec fn result_matches(s: Seq<u8>, mode: Mode, r: Result<u64, DecodeError>) -> bool {
    match mode {
        Mode::Strict => strict_result_matches(s, r),
        Mode::Lenient => r == Ok::<u64, DecodeError>(spec_error_count(spec_data_rows(s)) as u64),
    }
}

/// The count of ERROR rows never exceeds the number of rows that decode,
/// which never exceeds the number of rows.
pub proof fn lemma_error_count_le_decoded(rows: Seq<Seq<u8>>)
    ensures
        spec_error_count(rows) <= spec_decoded_count(rows),
        spec_decoded_count(rows) <= rows.len(),
    decreases rows.len(),
{
    if rows.len() > 0 {
        lemma_error_count_le_decoded(rows.drop_last());
    }
}

/// Counts the ERROR-level data rows of one file's contents in strict
/// mode: the first malformed row aborts with a [`DecodeError`] naming its
/// line, and no partial count is reported.
pub fn count_errors_strict(content: &[u8]) -> (r: Result<u64, DecodeError>)
    ensures
        strict_result_matches(content@, r),
{
    let lines = split_lines(content);
    let ghost rows = spec_data_rows(content@);
    if lines.len() == 0 {
        return Ok(0);
    }
    proof {
        assert(rows.len() == lines@.len() - 1);
        assert(forall|j: int| 0 <= j < rows.len() ==> rows[j] == lines@[j + 1]@);
        assert(rows.take(0) =~= Seq::<Seq<u8>>::empty());
    }
    let mut count: u64 = 0;
    let mut idx: usize = 1;
    while idx < lines.len()
        invariant
            1 <= idx <= lines@.len(),
            rows == spec_data_rows(content@),
            rows.len() == lines@.len() - 1,
            forall|j: int| 0 <= j < rows.len() ==> rows[j] == lines@[j + 1]@,
            forall|j: int| 0 <= j < idx - 1 ==> spec_row_ok(#[trigger] rows[j]),
            count == spec_error_count(rows.take(idx - 1)),
            count <= idx - 1,
        decreases lines@.len() - idx,
    {
        proof {
            assert(rows.take(idx as int).drop_last() =~= rows.take(idx - 1));
            assert(rows.take(idx as int).last() == rows[idx - 1]);
        }
        match decode_row(lines[idx].as_slice()) {
            Err(kind) => {
                proof {
                    lemma_first_bad_at(rows, idx - 1);
                }
                return Err(DecodeError { line: idx + 1, kind });
            },
            Ok(rec) => {
                let is_err_row = is_error_level(rec.level.as_slice());
                proof {
                    assert(is_err_row == spec_is_error_row(rows[idx - 1]));
                    lemma_error_count_le_decoded(rows.take(idx as int));
                }
                if is_err_row {
                    count = count + 1;
                }
            },
        }
        idx = idx + 1;
    }
    proof {
        assert(rows.take(rows.len() as int) =~= rows);
    }
    Ok(count)
}

/// Counts the ERROR-level data rows of one file's contents in lenient
/// mode: malformed rows are skipped and counting continues.
pub fn count_errors_lenient(content: &[u8]) -> (r: u64)
    ensures
        r == spec_error_count(spec_data_rows(content@)),
{
    let lines = split_lines(content);
    let ghost rows = spec_data_rows(content@);
    if lines.len() == 0 {
        return 0;
    }
    proof {
        assert(rows.len() == lines@.len() - 1);
        assert(forall|j: int| 0 <= j < rows.len() ==> rows[j] == lines@[j + 1]@);
        assert(rows.take(0) =~= Seq::<Seq<u8>>::empty());
    }
    let mut count: u64 = 0;
    let mut idx: usize = 1;
    while idx < lines.len()
        invariant
            1 <= idx <= lines@.len(),
            rows == spec_data_rows(content@),
            rows.len() == lines@.len() - 1,
            forall|j: int| 0 <= j < rows.len() ==> rows[j] == lines@[j + 1]@,
            count == spec_error_count(rows.take(idx - 1)),
            count <= idx - 1,
        decreases lines@.len() - idx,
    {
        proof {
            assert(rows.take(idx as int).drop_last() =~= rows.take(idx - 1));
            assert(rows.take(idx as int).last() == rows[idx - 1]);
            lemma_error_count_le_decoded(rows.take(idx as int));
        }
        match decode_row(lines[idx].as_slice()) {
            Err(_) => {
            },
            Ok(rec) => {
                let is_err_row = is_error_level(rec.level.as_slice());
                proof {
                    assert(is_err_row == spec_is_error_row(rows[idx - 1]));
                }
                if is_err_row {
                    count = count + 1;
                }
            },
        }
        idx = idx + 1;
    }
    proof {
        assert(rows.take(rows.len() as int) =~= rows);
    }
    count
}

/// Counts under the given decode-failure policy. Lenient counting never
/// fails; strict counting fails exactly when some data row is malformed.
pub fn count_errors(content: &[u8], mode: Mode) -> (r: Result<u64, DecodeError>)
    ensures
        result_matches(content@, mode, r),
{
    match mode {
        Mode::Strict => count_errors_strict(content),
        Mode::Lenient => {
            let c = count_errors_lenient(content);
            proof {
                lemma_error_count_le_decoded(spec_data_rows(content@));
            }
            Ok(c)
        },
    }
}

} // verus!
