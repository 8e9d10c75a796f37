//! Splitting the raw bytes of a log export into lines and fields.

use vstd::prelude::*;

verus! {

/// Byte that separates lines: `\n`.
pub const LINE_SEP: u8 = 10;

/// Byte that separates fields within a line: `,`.
pub const FIELD_SEP: u8 = 44;

/// The segments of `s` between occurrences of `sep`, in order.
///
/// Splitting always yields at least one segment; splitting an empty
/// sequence yields one empty segment. Each byte of `s` that equals `sep`
/// closes the segment before it and opens a new one.
pub open spec fn spec_split(s: Seq<u8>, sep: u8) -> Seq<Seq<u8>>
    decreases s.len(),
{
    if s.len() == 0 {
        seq![Seq::<u8>::empty()]
    } else {
        let p = spec_split(s.drop_last(), sep);
        if s.last() == sep {
            p + seq![Seq::<u8>::empty()]
        } else {
            p.drop_last() + seq![p.last().push(s.last())]
        }
    }
}

pub proof fn lemma_split_len(s: Seq<u8>, sep: u8)
    ensures
        spec_split(s, sep).len() >= 1,
        spec_split(s, sep).len() <= s.len() + 1,
    decreases s.len(),
{
    if s.len() > 0 {
        lemma_split_len(s.drop_last(), sep);
    }
}

/// Splits `s` at every occurrence of `sep`.
pub fn split(s: &[u8], sep: u8) -> (r: Vec<Vec<u8>>)
    ensures
        r.deep_view() == spec_split(s@, sep),
{
    let mut out: Vec<Vec<u8>> = Vec::new();
    let mut cur: Vec<u8> = Vec::new();
    let mut i: usize = 0;
    proof {
        assert(Seq::<u8>::empty() =~= s@.take(0));
    }
    while i < s.len()
        invariant
            0 <= i <= s@.len(),
            out.deep_view() + seq![cur@] =~~= spec_split(s@.take(i as int), sep),
        decreases s@.len() - i,
    {
        proof {
            assert(s@.take(i + 1 as int).drop_last() =~= s@.take(i as int));
            assert(s@.take(i + 1 as int).last() == s@[i as int]);
            lemma_split_len(s@.take(i as int), sep);
        }
        let ghost prev_out = out.deep_view();
        let ghost prev_cur = cur@;
        let b = s[i];
        if b == sep {
            out.push(cur);
            cur = Vec::new();
            proof {
                assert(out.deep_view() =~~= prev_out + seq![prev_cur]);
                assert(out.deep_view() + seq![cur@] =~~= spec_split(
                    s@.take(i + 1 as int),
                    sep,
                ));
            }
        } else {
            cur.push(b);
            proof {
                assert((prev_out + seq![prev_cur]).drop_last() =~~= prev_out);
                assert(out.deep_view() + seq![cur@] =~~= spec_split(
                    s@.take(i + 1 as int),
                    sep,
                ));
            }
        }
        i = i + 1;
    }
    proof {
        assert(s@.take(s@.len() as int) =~= s@);
    }
    let ghost prev_out = out.deep_view();
    let ghost prev_cur = cur@;
    out.push(cur);
    proof {
        assert(out.deep_view() =~~= prev_out + seq![prev_cur]);
        assert(out.deep_view() =~~= spec_split(s@, sep));
    }
    out
}

/// Byte that may end a line before the `\n`: `\r`.
pub const CARRIAGE_RETURN: u8 = 13;

/// A line with one trailing `\r` removed, so that files with `\r\n` line
/// endings read the same as files with `\n` alone.
pub open spec fn spec_strip_cr(line: Seq<u8>) -> Seq<u8> {
    if line.len() > 0 && line.last() == CARRIAGE_RETURN {
        line.drop_last()
    } else {
        line
    }
}

/// The lines of a file's contents: the segments between `\n` bytes, each
/// with a trailing `\r` removed, and with one trailing empty segment
/// dropped, so that a final newline does not produce a phantom empty
/// line. An empty file has no lines.
pub open spec fn spec_lines(s: Seq<u8>) -> Seq<Seq<u8>> {
    let parts = spec_split(s, LINE_SEP);
    let kept = if parts.last().len() == 0 {
        parts.drop_last()
    } else {
        parts
    };
    kept.map_values(|line: Seq<u8>| spec_strip_cr(line))
}

/// The data rows of a file's contents: every line after the header line.
pub open spec fn spec_data_rows(s: Seq<u8>) -> Seq<Seq<u8>> {
    let ls = spec_lines(s);
    if ls.len() == 0 {
        ls
    } else {
        ls.drop_first()
    }
}

/// Removes one trailing `\r` from a line, if there is one.
fn strip_cr(line: &mut Vec<u8>)
    ensures
        final(line)@ == spec_strip_cr(old(line)@),
{
    let n = line.len();
    if n > 0 {
        if line[n - 1] == CARRIAGE_RETURN {
            line.pop();
            proof {
                assert(line@ =~= spec_strip_cr(old(line)@));
            }
        }
    }
}

/// Splits a file's contents into lines.
pub fn split_lines(s: &[u8]) -> (r: Vec<Vec<u8>>)
    ensures
        r@.len() == spec_lines(s@).len(),
        forall|i: int| 0 <= i < r@.len() ==> r@[i]@ == spec_lines(s@)[i],
{
    let mut parts = split(s, LINE_SEP);
    proof {
        lemma_split_len(s@, LINE_SEP);
        assert(parts@[parts@.len() - 1]@ =~= parts.deep_view().last());
    }
    if parts[parts.len() - 1].len() == 0 {
        let ghost prev = parts.deep_view();
        parts.pop();
        proof {
            assert(parts.deep_view() =~~= prev.drop_last());
        }
    }
    let ghost kept = parts.deep_view();
    proof {
        assert(spec_lines(s@) =~~= kept.map_values(|line: Seq<u8>| spec_strip_cr(line)));
        assert(forall|i: int| 0 <= i < parts@.len() ==> parts@[i]@ =~= kept[i]);
    }
    let mut i: usize = 0;
    while i < parts.len()
        invariant
            0 <= i <= parts@.len(),
            parts@.len() == kept.len(),
            forall|j: int| 0 <= j < i ==> parts@[j]@ == spec_strip_cr(#[trigger] kept[j]),
            forall|j: int| i <= j < parts@.len() ==> parts@[j]@ == #[trigger] kept[j],
        decreases parts@.len() - i,
    {
        let mut line = parts.remove(i);
        strip_cr(&mut line);
        parts.insert(i, line);
        i = i + 1;
    }
    proof {
        assert(forall|i: int|
            0 <= i < parts@.len() ==> parts@[i]@ == #[trigger] spec_lines(s@)[i]);
    }
    parts
}

} // verus!
