//! The pattern of a metric line, stated as a whole.
//!
//! `metric_span` finds the parts of a metric line from left to right. This
//! module says what it finds: a line is a metric line exactly when it can be
//! cut into a label, a colon, white space, a number, optional white space, a
//! unit and a rest, and of all such cuts `metric_span` gives the one with
//! the longest number and, for that number, the longest unit.

use crate::chars::CharClass;
use crate::decimal::{digits_start, integer_end, is_decimal, lemma_decimal_shape};
use crate::metric::{
    after_sign, lemma_span_in_order, lemma_span_value_is_decimal, metric_span, units_after,
    MetricSpan,
};
use crate::scan::{all_in, lemma_run_end, lemma_run_end_is, run_end};
use vstd::prelude::*;

verus! {

/// The pieces that a metric line is made of, from left to right, but for
/// the colon, which stands between the label and the gap.
pub struct MetricParts {
    /// What stands before the colon.
    pub label: Seq<char>,
    /// The white space after the colon.
    pub gap: Seq<char>,
    /// The number.
    pub value: Seq<char>,
    /// The white space between the number and the unit.
    pub pad: Seq<char>,
    /// The unit.
    pub units: Seq<char>,
    /// What follows the unit.
    pub rest: Seq<char>,
}

/// Whether `parts` cut `line` as the pattern of a metric line asks: a label
/// that is not empty and holds no colon, a colon, white space that is not
/// empty, a signed decimal number, white space that may be empty, a unit
/// that is not empty and holds neither digits nor white space, and any rest.
pub open spec fn is_metric_cut(line: Seq<char>, parts: MetricParts) -> bool {
    &&& line == parts.label + seq![':'] + parts.gap + parts.value + parts.pad + parts.units
        + parts.rest
    &&& parts.label.len() > 0
    &&& all_in(parts.label, CharClass::Label)
    &&& parts.gap.len() > 0
    &&& all_in(parts.gap, CharClass::Whitespace)
    &&& is_decimal(parts.value)
    &&& all_in(parts.pad, CharClass::Whitespace)
    &&& parts.units.len() > 0
    &&& all_in(parts.units, CharClass::Unit)
}

/// The pieces into which a span cuts its line.
pub open spec fn parts_at(line: Seq<char>, span: MetricSpan) -> MetricParts {
    MetricParts {
        label: line.subrange(0, span.colon),
        gap: line.subrange(span.colon + 1, span.value_start),
        value: line.subrange(span.value_start, span.value_end),
        pad: line.subrange(span.value_end, span.units_start),
        units: line.subrange(span.units_start, span.units_end),
        rest: line.subrange(span.units_end, line.len() as int),
    }
}

/// What `metric_span` finds is a cut of the line as the pattern asks.
pub proof fn lemma_span_is_a_cut(line: Seq<char>)
    requires
        metric_span(line) is Some,
    ensures
        is_metric_cut(line, parts_at(line, metric_span(line)->0)),
{
    let span = metric_span(line)->0;
    let parts = parts_at(line, span);
    lemma_span_in_order(line);
    lemma_span_value_is_decimal(line);
    lemma_run_end(line, 0, CharClass::Label);
    lemma_run_end(line, span.colon + 1, CharClass::Whitespace);
    lemma_run_end(line, span.value_end, CharClass::Whitespace);
    lemma_run_end(line, span.units_start, CharClass::Unit);
    assert(line =~= parts.label + seq![':'] + parts.gap + parts.value + parts.pad + parts.units
        + parts.rest);
}

/// The characters of a piece of a line that starts at `at` are those of the
/// line from `at` on.
spec fn lies_at(line: Seq<char>, piece: Seq<char>, at: int) -> bool {
    &&& 0 <= at
    &&& at + piece.len() <= line.len()
    &&& line.subrange(at, at + piece.len()) == piece
}

/// Where the pieces of a cut lie in the line.
proof fn lemma_cut_places(line: Seq<char>, parts: MetricParts)
    requires
        is_metric_cut(line, parts),
    ensures
        ({
            let colon = parts.label.len() as int;
            let value_start = colon + 1 + parts.gap.len();
            let value_end = value_start + parts.value.len();
            let units_start = value_end + parts.pad.len();
            &&& lies_at(line, parts.label, 0)
            &&& line[colon] == ':'
            &&& lies_at(line, parts.gap, colon + 1)
            &&& lies_at(line, parts.value, value_start)
            &&& lies_at(line, parts.pad, value_end)
            &&& lies_at(line, parts.units, units_start)
            &&& units_start + parts.units.len() <= line.len()
        }),
{
    let colon = parts.label.len() as int;
    let value_start = colon + 1 + parts.gap.len();
    let value_end = value_start + parts.value.len();
    let units_start = value_end + parts.pad.len();
    assert(line.subrange(0, colon) =~= parts.label);
    assert(line.subrange(colon + 1, value_start) =~= parts.gap);
    assert(line.subrange(value_start, value_end) =~= parts.value);
    assert(line.subrange(value_end, units_start) =~= parts.pad);
    assert(line.subrange(units_start, units_start + parts.units.len()) =~= parts.units);
}

/// A stretch of a line that holds only characters of one class and is
/// followed by a character outside it is a run.
proof fn lemma_piece_is_run(
    line: Seq<char>,
    piece: Seq<char>,
    at: int,
    class: CharClass,
)
    requires
        lies_at(line, piece, at),
        all_in(piece, class),
        at + piece.len() < line.len() ==> !class.contains(line[at + piece.len()]),
    ensures
        run_end(line, at, class) == at + piece.len(),
{
    lemma_run_end_is(line, at, at + piece.len(), class);
}

/// A line that can be cut as the pattern asks is a metric line. Its label
/// and the white space after the colon are those of the cut; its number
/// starts where that of the cut starts and is at least as long; and where
/// the two numbers are the same, its unit starts where that of the cut
/// starts and is at least as long.
pub proof fn lemma_cut_is_found(line: Seq<char>, parts: MetricParts)
    requires
        is_metric_cut(line, parts),
    ensures
        metric_span(line) is Some,
        ({
            let span = metric_span(line)->0;
            &&& span.colon == parts.label.len()
            &&& span.value_start == span.colon + 1 + parts.gap.len()
            &&& span.value_end >= span.value_start + parts.value.len()
            &&& span.value_end == span.value_start + parts.value.len() ==> {
                &&& span.units_start == span.value_end + parts.pad.len()
                &&& span.units_end >= span.units_start + parts.units.len()
            }
        }),
{
    let colon = parts.label.len() as int;
    let value_start = colon + 1 + parts.gap.len();
    let value_end = value_start + parts.value.len();
    let units_start = value_end + parts.pad.len();
    let value = parts.value;
    lemma_cut_places(line, parts);
    lemma_decimal_shape(value);
    // The label ends at the colon.
    lemma_piece_is_run(line, parts.label, 0, CharClass::Label);
    // The white space after the colon ends where the number starts.
    lemma_piece_is_run(line, parts.gap, colon + 1, CharClass::Whitespace);
    // The digits before the point.
    let digits = after_sign(line, value_start);
    let point = value_start + integer_end(value);
    let whole = value.subrange(digits_start(value), integer_end(value));
    assert(line.subrange(digits, point) =~= whole);
    // What follows them is a point, white space or the unit: no digit.
    lemma_piece_is_run(line, whole, digits, CharClass::Digit);
    // The unit after the number of the cut.
    lemma_piece_is_run(line, parts.pad, value_end, CharClass::Whitespace);
    lemma_run_end(line, units_start, CharClass::Unit);
    assert(run_end(line, units_start, CharClass::Unit) >= units_start + parts.units.len());
    if point < value_end {
        // The number of the cut has a fraction, and so has the one found.
        let fraction = value.subrange(integer_end(value) + 1, value.len() as int);
        assert(line.subrange(point + 1, value_end) =~= fraction);
        lemma_piece_is_run(line, fraction, point + 1, CharClass::Digit);
    } else {
        // The number of the cut has none. If a fraction follows it in the
        // line, the point starts the unit of the cut.
        lemma_run_end(line, point + 1, CharClass::Digit);
    }
}

/// A line is a metric line exactly when it can be cut as the pattern asks.
pub proof fn lemma_metric_lines_are_the_cuts(line: Seq<char>)
    ensures
        metric_span(line) is Some <==> exists|parts: MetricParts| is_metric_cut(line, parts),
{
    if metric_span(line) is Some {
        lemma_span_is_a_cut(line);
    }
    if exists|parts: MetricParts| is_metric_cut(line, parts) {
        let parts = choose|parts: MetricParts| is_metric_cut(line, parts);
        lemma_cut_is_found(line, parts);
    }
}

} // verus!
