//! Runs of characters, and the passage between text and its characters.

use crate::chars::{char_is_whitespace, is_whitespace, CharClass};
use vstd::prelude::*;
use vstd::slice::slice_subrange;

verus! {

/// `String::push` appends one character to the text.
pub assume_specification[ String::push ](text: &mut String, ch: char)
    ensures
        final(text)@ == old(text)@.push(ch),
;

/// Where the longest run of characters of `class` that starts at `from` ends:
/// the first position at or after `from` that holds a character outside the
/// class, or the length of `s` if there is none.
pub open spec fn run_end(s: Seq<char>, from: int, class: CharClass) -> int
    decreases s.len() - from,
{
    if 0 <= from < s.len() && class.contains(s[from]) {
        run_end(s, from + 1, class)
    } else {
        from
    }
}

/// Whether every character of `s` belongs to `class`.
pub open spec fn all_in(s: Seq<char>, class: CharClass) -> bool {
    forall|i: int| 0 <= i < s.len() ==> class.contains(#[trigger] s[i])
}

/// A run ends inside the text, holds only characters of its class, and
/// cannot be extended.
pub proof fn lemma_run_end(s: Seq<char>, from: int, class: CharClass)
    requires
        0 <= from <= s.len(),
    ensures
        from <= run_end(s, from, class) <= s.len(),
        all_in(s.subrange(from, run_end(s, from, class)), class),
        run_end(s, from, class) < s.len() ==> !class.contains(s[run_end(s, from, class)]),
    decreases s.len() - from,
{
    if from < s.len() && class.contains(s[from]) {
        lemma_run_end(s, from + 1, class);
        let end = run_end(s, from, class);
        assert forall|i: int| 0 <= i < end - from implies class.contains(
            #[trigger] s.subrange(from, end)[i],
        ) by {
            if i > 0 {
                assert(s.subrange(from, end)[i] == s.subrange(from + 1, end)[i - 1]);
            }
        }
    }
}

/// A stretch of characters of one class that cannot be extended is the run
/// that starts where it starts.
pub proof fn lemma_run_end_is(s: Seq<char>, from: int, end: int, class: CharClass)
    requires
        0 <= from <= end <= s.len(),
        all_in(s.subrange(from, end), class),
        end < s.len() ==> !class.contains(s[end]),
    ensures
        run_end(s, from, class) == end,
    decreases end - from,
{
    if from < end {
        assert(s.subrange(from, end)[0] == s[from]);
        assert forall|i: int| 0 <= i < end - (from + 1) implies class.contains(
            #[trigger] s.subrange(from + 1, end)[i],
        ) by {
            assert(s.subrange(from + 1, end)[i] == s.subrange(from, end)[i + 1]);
        }
        lemma_run_end_is(s, from + 1, end, class);
    }
}

/// A run inside a stretch of `s` is the run of `s` itself, cut where the
/// stretch ends.
pub proof fn lemma_run_end_of_subrange(s: Seq<char>, a: int, b: int, from: int, class: CharClass)
    requires
        0 <= a <= b <= s.len(),
        0 <= from <= b - a,
    ensures
        run_end(s.subrange(a, b), from, class) == if run_end(s, a + from, class) < b {
            run_end(s, a + from, class) - a
        } else {
            b - a
        },
    decreases b - a - from,
{
    let sub = s.subrange(a, b);
    lemma_run_end(s, a + from, class);
    if from < b - a {
        if class.contains(sub[from]) {
            lemma_run_end_of_subrange(s, a, b, from + 1, class);
        }
    }
}

/// `s` without the white space that it starts with.
pub open spec fn trim_start(s: Seq<char>) -> Seq<char> {
    s.skip(run_end(s, 0, CharClass::Whitespace))
}

/// `s` without the white space that it ends with.
pub open spec fn trim_end(s: Seq<char>) -> Seq<char>
    decreases s.len(),
{
    if s.len() > 0 && is_whitespace(s.last()) {
        trim_end(s.drop_last())
    } else {
        s
    }
}

/// `s` without the white space around it.
pub open spec fn trim(s: Seq<char>) -> Seq<char> {
    trim_end(trim_start(s))
}

/// What is left of `s` without the white space that it ends with is the
/// start of `s`; what was taken away is white space, and what is left does
/// not end with white space.
pub proof fn lemma_trim_end(s: Seq<char>)
    ensures
        trim_end(s).len() <= s.len(),
        trim_end(s) == s.take(trim_end(s).len() as int),
        all_in(s.skip(trim_end(s).len() as int), CharClass::Whitespace),
        trim_end(s).len() > 0 ==> !is_whitespace(trim_end(s).last()),
    decreases s.len(),
{
    if s.len() > 0 && is_whitespace(s.last()) {
        let shorter = s.drop_last();
        lemma_trim_end(shorter);
        let kept = trim_end(s).len() as int;
        assert forall|i: int| 0 <= i < s.skip(kept).len() implies CharClass::Whitespace.contains(
            #[trigger] s.skip(kept)[i],
        ) by {
            if i < shorter.skip(kept).len() {
                assert(s.skip(kept)[i] == shorter.skip(kept)[i]);
            }
        }
    }
}

/// What is left of `s` without the white space around it is a stretch of
/// `s`. What stands before it and after it in `s` is white space, and it
/// neither starts nor ends with white space.
pub proof fn lemma_trim(s: Seq<char>)
    ensures
        ({
            let start = run_end(s, 0, CharClass::Whitespace);
            let end = start + trim(s).len();
            &&& 0 <= start <= end <= s.len()
            &&& trim(s) == s.subrange(start, end)
            &&& all_in(s.subrange(0, start), CharClass::Whitespace)
            &&& all_in(s.subrange(end, s.len() as int), CharClass::Whitespace)
            &&& trim(s).len() > 0 ==> !is_whitespace(trim(s).first()) && !is_whitespace(
                trim(s).last(),
            )
        }),
{
    let start = run_end(s, 0, CharClass::Whitespace);
    let tail = s.skip(start);
    lemma_run_end(s, 0, CharClass::Whitespace);
    lemma_trim_end(tail);
    let end = start + trim(s).len();
    assert(tail.skip(trim(s).len() as int) == s.subrange(end, s.len() as int));
}

/// Finds the end of the run of `class` that starts at `from`.
pub fn scan_run(s: &[char], from: usize, class: CharClass) -> (end: usize)
    ensures
        end == run_end(s@, from as int, class),
        from <= s.len() ==> from <= end <= s.len(),
{
    let mut i: usize = from;
    while i < s.len() && class.has(s[i])
        invariant
            from <= i,
            from <= s.len() ==> i <= s.len(),
            run_end(s@, i as int, class) == run_end(s@, from as int, class),
        decreases s.len() - i,
    {
        i += 1;
    }
    i
}

/// The characters of `text`, in order.
pub fn chars_of(text: &str) -> (chars: Vec<char>)
    ensures
        chars@ == text@,
{
    let mut chars: Vec<char> = Vec::new();
    for c in it: text.chars()
        invariant
            chars@ == it.seq().take(it.index() as int),
    {
        chars.push(c);
    }
    chars
}

/// The text made of the characters of `s` from `from` up to `to`.
pub(crate) fn text_of(s: &[char], from: usize, to: usize) -> (text: String)
    requires
        from <= to <= s.len(),
    ensures
        text@ == s@.subrange(from as int, to as int),
{
    let mut text = String::new();
    let mut i: usize = from;
    while i < to
        invariant
            from <= i <= to <= s.len(),
            text@ == s@.subrange(from as int, i as int),
        decreases to - i,
    {
        text.push(s[i]);
        i += 1;
    }
    text
}

/// Finds what is left of the stretch of `s` from `from` up to `to` once the
/// white space around it is taken away.
pub(crate) fn trim_bounds(s: &[char], from: usize, to: usize) -> (bounds: (usize, usize))
    requires
        from <= to <= s.len(),
    ensures
        from <= bounds.0 <= bounds.1 <= to,
        s@.subrange(bounds.0 as int, bounds.1 as int) == trim(s@.subrange(from as int, to as int)),
{
    let whole = slice_subrange(s, from, to);
    let start = from + scan_run(whole, 0, CharClass::Whitespace);
    assert(trim_start(whole@) == s@.subrange(start as int, to as int));
    let mut end: usize = to;
    while start < end && char_is_whitespace(s[end - 1])
        invariant
            start <= end <= to <= s.len(),
            trim_end(s@.subrange(start as int, end as int)) == trim_end(
                s@.subrange(start as int, to as int),
            ),
        decreases end - start,
    {
        assert(s@.subrange(start as int, end as int).drop_last() == s@.subrange(
            start as int,
            end - 1,
        ));
        end -= 1;
    }
    (start, end)
}

} // verus!
