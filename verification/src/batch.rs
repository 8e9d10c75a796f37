//! Processing an ordered batch of files, each independently.

use vstd::prelude::*;
use crate::count::{count_errors, result_matches, DecodeError, Mode};

verus! {

/// What the driver hands over for one file of the batch: the file's
/// contents, or the reason the file could not be opened or read.
pub enum FileInput {
    Content(Vec<u8>),
    Unreadable(String),
}

/// The outcome reported for one file of the batch.
pub enum FileOutcome {
    /// The file decoded and holds this many ERROR-level rows.
    Count(u64),
    /// The file could not be opened or read, for this reason.
    OpenError(String),
    /// A data row of the file was malformed.
    DecodeError(DecodeError),
}

/// Exactly which outcome one input gets under the given mode. An
/// unreadable file reports its open failure; a readable one reports what
/// counting its contents returns. The outcome depends on nothing but the
/// input itself.
pub open spec fn outcome_matches(inp: FileInput, mode: Mode, out: FileOutcome) -> bool {
    match inp {
        FileInput::Content(c) => match out {
            FileOutcome::Count(n) => result_matches(c@, mode, Ok(n)),
            FileOutcome::DecodeError(e) => result_matches(c@, mode, Err(e)),
            FileOutcome::OpenError(_) => false,
        },
        FileInput::Unreadable(msg) => out matches FileOutcome::OpenError(m) && m@ == msg@,
    }
}

/// Processes the inputs in order, each independently: one outcome per
/// input, in the same order, and one file's failure never affects another
/// file's outcome.
pub fn process_batch(inputs: &Vec<FileInput>, mode: Mode) -> (r: Vec<FileOutcome>)
    ensures
        r@.len() == inputs@.len(),
        forall|i: int|
            0 <= i < inputs@.len() ==> outcome_matches(inputs@[i], mode, #[trigger] r@[i]),
{
    let mut out: Vec<FileOutcome> = Vec::new();
    let mut i: usize = 0;
    while i < inputs.len()
        invariant
            0 <= i <= inputs@.len(),
            out@.len() == i,
            forall|j: int| 0 <= j < i ==> outcome_matches(inputs@[j], mode, #[trigger] out@[j]),
        decreases inputs@.len() - i,
    {
        let oc = match &inputs[i] {
            FileInput::Content(c) => match count_errors(c.as_slice(), mode) {
                Ok(n) => FileOutcome::Count(n),
                Err(e) => FileOutcome::DecodeError(e),
            },
            FileInput::Unreadable(msg) => FileOutcome::OpenError(msg.clone()),
        };
        out.push(oc);
        i = i + 1;
    }
    out
}

} // verus!
