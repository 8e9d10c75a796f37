//! One decoded row of a log export, and the row decoder.

use vstd::prelude::*;
use crate::parse::{spec_split, split, FIELD_SEP};

verus! {

/// One decoded log row. The `timestamp` and `message` fields are opaque
/// text; `level` is compared against `"ERROR"`; `response_time_ms` must
/// have been written as a run of decimal digits whose value fits in `u32`.
#[derive(Debug)]
pub struct LogRecord {
    pub timestamp: Vec<u8>,
    pub level: Vec<u8>,
    pub message: Vec<u8>,
    pub response_time_ms: u32,
}

/// The mathematical shape of a decoded log row.
#[verifier::ext_equal]
pub struct LogRecordModel {
    pub timestamp: Seq<u8>,
    pub level: Seq<u8>,
    pub message: Seq<u8>,
    pub response_time_ms: u32,
}

impl View for LogRecord {
    type V = LogRecordModel;

    open spec fn view(&self) -> LogRecordModel {
        LogRecordModel {
            timestamp: self.timestamp@,
            level: self.level@,
            message: self.message@,
            response_time_ms: self.response_time_ms,
        }
    }
}

/// Why one row failed to decode: the wrong number of fields, or a
/// response-time field that is not a decimal number fitting in `u32`.
#[derive(Clone, Copy, Debug, PartialEq, Eq, Structural)]
pub enum DecodeErrorKind {
    WrongFieldCount,
    BadResponseTime,
}

/// ASCII decimal digit.
pub open spec fn is_digit(b: u8) -> bool {
    48 <= b && b <= 57
}

pub open spec fn all_digits(s: Seq<u8>) -> bool {
    forall|i: int| 0 <= i < s.len() ==> is_digit(#[trigger] s[i])
}

/// The value of a run of decimal digits, most significant first.
pub open spec fn digits_value(s: Seq<u8>) -> int
    decreases s.len(),
{
    if s.len() == 0 {
        0
    } else {
        digits_value(s.drop_last()) * 10 + (s.last() - 48)
    }
}

/// A field parses as a `u32`: nonempty, digits only, value in range.
pub open spec fn is_valid_u32(s: Seq<u8>) -> bool {
    s.len() > 0 && all_digits(s) && digits_value(s) <= u32::MAX
}

pub proof fn lemma_digits_value_nonneg(s: Seq<u8>)
    requires
        all_digits(s),
    ensures
        digits_value(s) >= 0,
    decreases s.len(),
{
    if s.len() > 0 {
        assert(all_digits(s.drop_last())) by {
            assert(forall|i: int|
                0 <= i < s.len() - 1 ==> s.drop_last()[i] == s[i]);
        }
        lemma_digits_value_nonneg(s.drop_last());
    }
}

/// Reading more digits can only increase the value.
pub proof fn lemma_digits_value_prefix_le(s: Seq<u8>, k: int)
    requires
        0 <= k <= s.len(),
        all_digits(s),
    ensures
        digits_value(s.take(k)) <= digits_value(s),
    decreases s.len() - k,
{
    if k == s.len() {
        assert(s.take(k) =~= s);
    } else {
        assert(s.take(k + 1).drop_last() =~= s.take(k));
        assert(s.take(k + 1).last() == s[k]);
        assert(all_digits(s.take(k))) by {
            assert(forall|i: int| 0 <= i < k ==> s.take(k)[i] == s[i]);
        }
        lemma_digits_value_nonneg(s.take(k));
        assert(digits_value(s.take(k + 1)) >= digits_value(s.take(k)));
        lemma_digits_value_prefix_le(s, k + 1);
    }
}

/// Parses a run of decimal digits as a `u32`. Returns `None` on an empty
/// field, a non-digit byte, or a value that does not fit.
pub fn parse_u32(s: &[u8]) -> (r: Option<u32>)
    ensures
        r matches Some(v) ==> is_valid_u32(s@) && v == digits_value(s@),
        r is None ==> !is_valid_u32(s@),
{
    if s.len() == 0 {
        return None;
    }
    let mut acc: u64 = 0;
    let mut i: usize = 0;
    proof {
        assert(s@.take(0) =~= Seq::<u8>::empty());
    }
    while i < s.len()
        invariant
            0 <= i <= s@.len(),
            forall|j: int| 0 <= j < i ==> is_digit(#[trigger] s@[j]),
            acc == digits_value(s@.take(i as int)),
            acc <= u32::MAX,
        decreases s@.len() - i,
    {
        let b = s[i];
        if b < 48 || b > 57 {
            return None;
        }
        proof {
            assert(s@.take(i + 1 as int).drop_last() =~= s@.take(i as int));
            assert(s@.take(i + 1 as int).last() == s@[i as int]);
        }
        acc = acc * 10 + ((b - 48) as u64);
        if acc > u32::MAX as u64 {
            proof {
                if all_digits(s@) {
                    lemma_digits_value_prefix_le(s@, i + 1 as int);
                }
            }
            return None;
        }
        i = i + 1;
    }
    proof {
        assert(s@.take(s@.len() as int) =~= s@);
    }
    Some(acc as u32)
}

/// The fields of one row.
pub open spec fn spec_fields(row: Seq<u8>) -> Seq<Seq<u8>> {
    spec_split(row, FIELD_SEP)
}

/// What one row decodes to, if it decodes: exactly four fields, the last
/// of which is a decimal number fitting in `u32`.
pub open spec fn spec_decode_row(row: Seq<u8>) -> Option<LogRecordModel> {
    let f = spec_fields(row);
    if f.len() == 4 && is_valid_u32(f[3]) {
        Some(
            LogRecordModel {
                timestamp: f[0],
                level: f[1],
                message: f[2],
                response_time_ms: digits_value(f[3]) as u32,
            },
        )
    } else {
        None
    }
}

pub open spec fn spec_row_ok(row: Seq<u8>) -> bool {
    spec_decode_row(row) is Some
}

/// Which fault a row that fails to decode fails with.
pub open spec fn spec_row_fault(row: Seq<u8>) -> DecodeErrorKind {
    if spec_fields(row).len() != 4 {
        DecodeErrorKind::WrongFieldCount
    } else {
        DecodeErrorKind::BadResponseTime
    }
}

/// Decodes one row of delimited text into a [`LogRecord`].
pub fn decode_row(row: &[u8]) -> (r: Result<LogRecord, DecodeErrorKind>)
    ensures
        r matches Ok(rec) ==> spec_decode_row(row@) == Some(rec@),
        r matches Err(k) ==> spec_decode_row(row@) is None && k == spec_row_fault(row@),
{
    let mut fields = split(row, FIELD_SEP);
    proof {
        assert(forall|i: int|
            0 <= i < fields@.len() ==> fields@[i]@ =~= fields.deep_view()[i]);
    }
    if fields.len() != 4 {
        return Err(DecodeErrorKind::WrongFieldCount);
    }
    let response_time_ms = match parse_u32(fields[3].as_slice()) {
        Some(v) => v,
        None => {
            return Err(DecodeErrorKind::BadResponseTime);
        },
    };
    let response_field = fields.pop().unwrap();
    let message = fields.pop().unwrap();
    let level = fields.pop().unwrap();
    let timestamp = fields.pop().unwrap();
    let rec = LogRecord { timestamp, level, message, response_time_ms };
    proof {
        assert(rec@ =~~= spec_decode_row(row@).unwrap());
    }
    Ok(rec)
}

} // verus!
