//! Splitting a log file's bytes into lines.
//!
//! A log is newline-delimited: every `\n` ends a line, and a carriage return
//! directly before it belongs to the line ending. Bytes after the last `\n`
//! form a final line when there are any.

use vstd::prelude::*;
use vstd::slice::*;

verus! {

pub const NEWLINE: u8 = 10;

pub const CARRIAGE_RETURN: u8 = 13;

/// A terminated line without the carriage return that may end it.
pub open spec fn strip_cr(line: Seq<u8>) -> Seq<u8> {
    if line.len() > 0 && line.last() == CARRIAGE_RETURN {
        line.drop_last()
    } else {
        line
    }
}

/// The lines of `content[start..]`, where `content[start..pos]` is known to
/// hold no newline.
pub open spec fn lines_from(content: Seq<u8>, start: int, pos: int) -> Seq<Seq<u8>>
    decreases content.len() - pos,
{
    if pos >= content.len() {
        if start < content.len() {
            seq![content.subrange(start, content.len() as int)]
        } else {
            seq![]
        }
    } else if content[pos] == NEWLINE {
        seq![strip_cr(content.subrange(start, pos))] + lines_from(content, pos + 1, pos + 1)
    } else {
        lines_from(content, start, pos + 1)
    }
}

/// The lines of a log file, in order, without their line endings.
pub open spec fn log_lines(content: Seq<u8>) -> Seq<Seq<u8>> {
    lines_from(content, 0, 0)
}

/// What each of a sequence of slices holds.
pub open spec fn slice_views(slices: Seq<&[u8]>) -> Seq<Seq<u8>> {
    slices.map_values(|s: &[u8]| s@)
}

/// A log has no more lines than bytes.
pub proof fn lemma_line_count(content: Seq<u8>)
    ensures
        log_lines(content).len() <= content.len(),
{
    lemma_line_count_from(content, 0, 0);
}

/// The lines from `start` on are no more than the bytes from `start` on.
pub proof fn lemma_line_count_from(content: Seq<u8>, start: int, pos: int)
    requires
        0 <= start <= pos <= content.len(),
    ensures
        lines_from(content, start, pos).len() <= content.len() - start,
    decreases content.len() - pos,
{
    if pos < content.len() {
        if content[pos] == NEWLINE {
            lemma_line_count_from(content, pos + 1, pos + 1);
        } else {
            lemma_line_count_from(content, start, pos + 1);
        }
    }
}

/// Splits a log file into its lines.
pub fn split_lines<'a>(content: &'a [u8]) -> (lines: Vec<&'a [u8]>)
    ensures
        slice_views(lines@) == log_lines(content@),
{
    let n = content.len();
    let mut lines: Vec<&'a [u8]> = Vec::new();
    let mut start: usize = 0;
    let mut pos: usize = 0;
    proof {
        assert(slice_views(lines@) =~= Seq::<Seq<u8>>::empty());
        assert(Seq::<Seq<u8>>::empty() + lines_from(content@, 0, 0) =~= lines_from(content@, 0, 0));
    }
    while pos < n
        invariant
            n == content.len(),
            start <= pos <= n,
            log_lines(content@) == slice_views(lines@) + lines_from(content@, start as int, pos as int),
        decreases n - pos,
    {
        if content[pos] == NEWLINE {
            let mut end = pos;
            if end > start && content[end - 1] == CARRIAGE_RETURN {
                end = end - 1;
            }
            let line = slice_subrange(content, start, end);
            proof {
                let raw = content@.subrange(start as int, pos as int);
                assert(line@ =~= strip_cr(raw));
                let before = slice_views(lines@);
                assert(slice_views(lines@.push(line)) =~= before.push(line@));
                assert(before + (seq![line@] + lines_from(content@, pos + 1, pos + 1))
                    =~= before.push(line@) + lines_from(content@, pos + 1, pos + 1));
            }
            lines.push(line);
            start = pos + 1;
        }
        pos = pos + 1;
    }
    if start < n {
        let line = slice_subrange(content, start, n);
        proof {
            let before = slice_views(lines@);
            assert(slice_views(lines@.push(line)) =~= before.push(line@));
            assert(before + seq![line@] =~= before.push(line@));
        }
        lines.push(line);
    } else {
        proof {
            assert(slice_views(lines@) + Seq::<Seq<u8>>::empty() =~= slice_views(lines@));
        }
    }
    lines
}

} // verus!
