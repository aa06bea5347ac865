//! The grammar of a metric line: `label: value units`, and whatever follows.
//!
//! A metric line starts with a label, which is everything before the first
//! colon and may not be empty. After the colon comes white space, then a
//! signed decimal number, then, after optional white space, the unit: a run
//! of characters that are neither digits nor white space. What follows the
//! unit is not read.
//!
//! The number takes its fraction whenever a unit can follow the fraction;
//! where none can (`12.5` at the end of a line), the number ends before the
//! point and the point starts the unit.

use crate::chars::{char_is_sign, is_sign, CharClass};
use crate::decimal::{is_decimal, Decimal};
use crate::scan::{
    chars_of, lemma_run_end, lemma_run_end_of_subrange, run_end, scan_run, text_of, trim,
    trim_bounds,
};
use vstd::prelude::*;

verus! {

/// Where the parts of a metric line lie in it.
pub struct MetricSpan {
    /// The position of the colon, which is where the label ends.
    pub colon: int,
    /// Where the number starts.
    pub value_start: int,
    /// Where the number ends.
    pub value_end: int,
    /// Where the unit starts.
    pub units_start: int,
    /// Where the unit ends.
    pub units_end: int,
}

/// What a metric line says: the label, the number as it is written, and the
/// unit.
pub struct MetricView {
    pub label: Seq<char>,
    pub value: Seq<char>,
    pub units: Seq<char>,
}

/// Where the digits of the number start, given where the number starts:
/// after the sign, if there is one.
pub open spec fn after_sign(line: Seq<char>, value_start: int) -> int {
    if 0 <= value_start < line.len() && is_sign(line[value_start]) {
        value_start + 1
    } else {
        value_start
    }
}

/// Where a fraction that starts at `point` ends; `point` itself if no point
/// stands there.
pub open spec fn fraction_end(line: Seq<char>, point: int) -> int {
    if 0 <= point < line.len() && line[point] == '.' {
        run_end(line, point + 1, CharClass::Digit)
    } else {
        point
    }
}

/// The unit that follows a number that ends at `value_end`: where it starts
/// and ends, if there is one.
pub open spec fn units_after(line: Seq<char>, value_end: int) -> Option<(int, int)> {
    let start = run_end(line, value_end, CharClass::Whitespace);
    let end = run_end(line, start, CharClass::Unit);
    if start < end {
        Some((start, end))
    } else {
        None
    }
}

/// Where the parts of a metric line lie in `line`, if it is one.
pub open spec fn metric_span(line: Seq<char>) -> Option<MetricSpan> {
    let colon = run_end(line, 0, CharClass::Label);
    let value_start = run_end(line, colon + 1, CharClass::Whitespace);
    let digits = after_sign(line, value_start);
    let point = run_end(line, digits, CharClass::Digit);
    let with_fraction = fraction_end(line, point);
    if colon == 0 || colon >= line.len() || value_start == colon + 1 || point == digits {
        None
    } else if point + 1 < with_fraction && units_after(line, with_fraction) is Some {
        let units = units_after(line, with_fraction)->0;
        Some(
            MetricSpan {
                colon,
                value_start,
                value_end: with_fraction,
                units_start: units.0,
                units_end: units.1,
            },
        )
    } else if units_after(line, point) is Some {
        let units = units_after(line, point)->0;
        Some(
            MetricSpan {
                colon,
                value_start,
                value_end: point,
                units_start: units.0,
                units_end: units.1,
            },
        )
    } else {
        None
    }
}

/// What `line` says, if it is a metric line.
pub open spec fn metric_of(line: Seq<char>) -> Option<MetricView> {
    match metric_span(line) {
        Some(span) => Some(
            MetricView {
                label: trim(line.subrange(0, span.colon)),
                value: line.subrange(span.value_start, span.value_end),
                units: line.subrange(span.units_start, span.units_end),
            },
        ),
        None => None,
    }
}

/// The parts of a metric line lie in it one after the other.
pub proof fn lemma_span_in_order(line: Seq<char>)
    requires
        metric_span(line) is Some,
    ensures
        ({
            let span = metric_span(line)->0;
            &&& 0 < span.colon < span.value_start < span.value_end <= span.units_start
                < span.units_end <= line.len()
        }),
{
    let colon = run_end(line, 0, CharClass::Label);
    lemma_run_end(line, 0, CharClass::Label);
    lemma_run_end(line, colon + 1, CharClass::Whitespace);
    let value_start = run_end(line, colon + 1, CharClass::Whitespace);
    let digits = after_sign(line, value_start);
    lemma_run_end(line, digits, CharClass::Digit);
    let point = run_end(line, digits, CharClass::Digit);
    if point < line.len() && line[point] == '.' {
        lemma_run_end(line, point + 1, CharClass::Digit);
    }
    let value_end = metric_span(line)->0.value_end;
    lemma_run_end(line, value_end, CharClass::Whitespace);
    lemma_run_end(line, run_end(line, value_end, CharClass::Whitespace), CharClass::Unit);
}

/// The number of a metric line is a signed decimal number.
pub proof fn lemma_span_value_is_decimal(line: Seq<char>)
    requires
        metric_span(line) is Some,
    ensures
        ({
            let span = metric_span(line)->0;
            is_decimal(line.subrange(span.value_start, span.value_end))
        }),
{
    lemma_span_in_order(line);
    let span = metric_span(line)->0;
    let digits = after_sign(line, span.value_start);
    let point = run_end(line, digits, CharClass::Digit);
    lemma_run_end(line, digits, CharClass::Digit);
    lemma_run_end_of_subrange(
        line,
        span.value_start,
        span.value_end,
        digits - span.value_start,
        CharClass::Digit,
    );
    if span.value_end != point {
        lemma_run_end(line, point + 1, CharClass::Digit);
        lemma_run_end_of_subrange(
            line,
            span.value_start,
            span.value_end,
            point + 1 - span.value_start,
            CharClass::Digit,
        );
    }
}

/// A metric line, read: its label, its number and its unit.
#[derive(Debug, PartialEq, Eq)]
pub struct Metric {
    /// The name of the metric, without the white space around it.
    pub label: String,
    /// The measurement, as it is written.
    pub value: Decimal,
    /// The unit of the measurement, as it is written.
    pub units: String,
}

impl View for Metric {
    type V = MetricView;

    open spec fn view(&self) -> MetricView {
        MetricView { label: self.label@, value: self.value@, units: self.units@ }
    }
}

/// Where the parts of a metric line lie, as positions that a program holds.
struct Span {
    colon: usize,
    value_start: usize,
    value_end: usize,
    units_start: usize,
    units_end: usize,
}

impl Span {
    spec fn places(&self) -> MetricSpan {
        MetricSpan {
            colon: self.colon as int,
            value_start: self.value_start as int,
            value_end: self.value_end as int,
            units_start: self.units_start as int,
            units_end: self.units_end as int,
        }
    }
}

/// Finds the unit that follows a number that ends at `value_end`.
fn find_units(line: &[char], value_end: usize) -> (found: Option<(usize, usize)>)
    requires
        value_end <= line.len(),
    ensures
        match found {
            Some((start, end)) => units_after(line@, value_end as int) == Some(
                (start as int, end as int),
            ),
            None => units_after(line@, value_end as int) is None,
        },
{
    let start = scan_run(line, value_end, CharClass::Whitespace);
    let end = scan_run(line, start, CharClass::Unit);
    if start < end {
        Some((start, end))
    } else {
        None
    }
}

/// Finds where the parts of a metric line lie in `line`.
fn find_span(line: &[char]) -> (found: Option<Span>)
    ensures
        match found {
            Some(span) => metric_span(line@) == Some(span.places()),
            None => metric_span(line@) is None,
        },
{
    let n = line.len();
    let colon = scan_run(line, 0, CharClass::Label);
    if colon == 0 || colon >= n {
        return None;
    }
    let value_start = scan_run(line, colon + 1, CharClass::Whitespace);
    if value_start == colon + 1 {
        return None;
    }
    let digits: usize = if value_start < n && char_is_sign(line[value_start]) {
        value_start + 1
    } else {
        value_start
    };
    let point = scan_run(line, digits, CharClass::Digit);
    if point == digits {
        return None;
    }
    if point < n && line[point] == '.' {
        let with_fraction = scan_run(line, point + 1, CharClass::Digit);
        if point + 1 < with_fraction {
            if let Some((units_start, units_end)) = find_units(line, with_fraction) {
                return Some(
                    Span { colon, value_start, value_end: with_fraction, units_start, units_end },
                );
            }
        }
    }
    match find_units(line, point) {
        Some((units_start, units_end)) => Some(
            Span { colon, value_start, value_end: point, units_start, units_end },
        ),
        None => None,
    }
}

/// Reads a metric line that is given by its characters.
pub(crate) fn parse_metric_chars(line: &[char]) -> (metric: Option<Metric>)
    ensures
        match metric {
            Some(m) => metric_of(line@) == Some(m@),
            None => metric_of(line@) is None,
        },
{
    match find_span(line) {
        Some(span) => {
            proof {
                lemma_span_in_order(line@);
                lemma_span_value_is_decimal(line@);
            }
            let (label_start, label_end) = trim_bounds(line, 0, span.colon);
            Some(
                Metric {
                    label: text_of(line, label_start, label_end),
                    value: Decimal::from_chars(line, span.value_start, span.value_end),
                    units: text_of(line, span.units_start, span.units_end),
                },
            )
        },
        None => None,
    }
}

/// Reads a metric line: `Some` exactly when `line` is one, and then with
/// the label, the number and the unit that `metric_of` gives.
pub fn parse_metric_line(line: &str) -> (metric: Option<Metric>)
    ensures
        match metric {
            Some(m) => metric_of(line@) == Some(m@),
            None => metric_of(line@) is None,
        },
{
    let chars = chars_of(line);
    parse_metric_chars(chars.as_slice())
}

} // verus!
