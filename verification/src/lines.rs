//! The lines of a report.
//!
//! A line ends with a line feed, or with the text. A carriage return just
//! before the line feed belongs to the line ending; anywhere else it is a
//! character of the line. The last line needs no line feed, and a text that
//! ends with a line feed has no empty line after it.

use crate::chars::CharClass;
use crate::scan::{chars_of, lemma_run_end, lemma_run_end_of_subrange, run_end, scan_run, text_of};
use vstd::prelude::*;

verus! {

/// A line that a line feed ended, without the carriage return that stood
/// before the line feed, if one did.
pub open spec fn without_cr(line: Seq<char>) -> Seq<char> {
    if line.len() > 0 && line.last() == '\r' {
        line.drop_last()
    } else {
        line
    }
}

/// The lines of `text`, in order, without their line endings.
pub open spec fn lines_of(text: Seq<char>) -> Seq<Seq<char>>
    decreases text.len(),
{
    let end = run_end(text, 0, CharClass::Line);
    if text.len() == 0 {
        Seq::empty()
    } else if 0 <= end < text.len() {
        seq![without_cr(text.take(end))] + lines_of(text.skip(end + 1))
    } else {
        seq![text]
    }
}

/// What is left of a text from a position on starts with the line that
/// starts there.
pub proof fn lemma_lines_from(text: Seq<char>, from: int)
    requires
        0 <= from < text.len(),
    ensures
        ({
            let end = run_end(text, from, CharClass::Line);
            &&& from <= end <= text.len()
            &&& end < text.len() ==> lines_of(text.skip(from)) == seq![
                without_cr(text.subrange(from, end)),
            ] + lines_of(text.skip(end + 1))
            &&& end == text.len() ==> lines_of(text.skip(from)) == seq![text.skip(from)]
        }),
{
    let rest = text.skip(from);
    let end = run_end(text, from, CharClass::Line);
    lemma_run_end(text, from, CharClass::Line);
    lemma_run_end_of_subrange(text, from, text.len() as int, 0, CharClass::Line);
    if end < text.len() {
        assert(rest.take(end - from) == text.subrange(from, end));
        assert(rest.skip(end - from + 1) == text.skip(end + 1));
    }
}

/// Finds the line of `text` that starts at `from`: where its characters
/// end, and where the text after it starts.
pub(crate) fn next_line(text: &[char], from: usize) -> (found: (usize, usize))
    requires
        from < text.len(),
    ensures
        from <= found.0 <= found.1 <= text.len(),
        from < found.1,
        lines_of(text@.skip(from as int)) == seq![
            text@.subrange(from as int, found.0 as int),
        ] + lines_of(text@.skip(found.1 as int)),
{
    proof {
        lemma_lines_from(text@, from as int);
    }
    let end = scan_run(text, from, CharClass::Line);
    if end == text.len() {
        (end, end)
    } else if from < end && text[end - 1] == '\r' {
        assert(text@.subrange(from as int, end as int).drop_last() == text@.subrange(
            from as int,
            end - 1,
        ));
        (end - 1, end + 1)
    } else {
        (end, end + 1)
    }
}

/// Splits `text` into its lines.
pub fn split_lines(text: &str) -> (lines: Vec<String>)
    ensures
        lines@.map_values(|line: String| line@) == lines_of(text@),
{
    let chars = chars_of(text);
    let mut lines: Vec<String> = Vec::new();
    let mut from: usize = 0;
    assert(chars@.skip(0) == chars@);
    while from < chars.len()
        invariant
            from <= chars.len(),
            lines_of(chars@) == lines@.map_values(|line: String| line@) + lines_of(
                chars@.skip(from as int),
            ),
        decreases chars.len() - from,
    {
        let (end, next) = next_line(chars.as_slice(), from);
        let line = text_of(chars.as_slice(), from, end);
        lines.push(line);
        from = next;
    }
    lines
}

} // verus!
