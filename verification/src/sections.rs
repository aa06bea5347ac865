//! What the sections of a report mean for its readings.
//!
//! The parser keeps nothing between two lines but the device of the section
//! it is in. The theorems of this module say what follows from that: lines
//! can be read in pieces, empty lines and lines that are no metric lines
//! add nothing, a section is read as if it stood alone, and each reading
//! comes from one metric line and the header of the section around it.

use crate::decimal::is_decimal;
use crate::metric::{lemma_span_value_is_decimal, metric_of};
use crate::lines::lines_of;
use crate::parser::{device_after, readings_from, readings_of, readings_of_lines, step};
use crate::reading::{reading_of, ReadingView};
use vstd::prelude::*;

verus! {

/// Reading a list of lines is reading its first part, and then the rest
/// from the device in which the first part left the parser.
pub proof fn lemma_readings_in_pieces(
    device: Option<Seq<char>>,
    first: Seq<Seq<char>>,
    rest: Seq<Seq<char>>,
)
    ensures
        readings_from(device, first + rest) == readings_from(device, first) + readings_from(
            device_after(device, first),
            rest,
        ),
        device_after(device, first + rest) == device_after(device_after(device, first), rest),
    decreases first.len(),
{
    if first.len() > 0 {
        assert((first + rest).drop_first() == first.drop_first() + rest);
        lemma_readings_in_pieces(step(device, first.first()).0, first.drop_first(), rest);
    }
}

/// Lines that are all empty make no reading, and leave the parser outside
/// any section.
pub proof fn lemma_empty_lines_make_no_readings(device: Option<Seq<char>>, lines: Seq<Seq<char>>)
    requires
        forall|i: int| 0 <= i < lines.len() ==> (#[trigger] lines[i]).len() == 0,
    ensures
        readings_from(device, lines) == Seq::<ReadingView>::empty(),
        lines.len() > 0 ==> device_after(device, lines) is None,
    decreases lines.len(),
{
    if lines.len() > 0 {
        lemma_empty_lines_make_no_readings(None, lines.drop_first());
    }
}

/// Lines of which none is a metric line make no reading: a section that
/// holds no metric line adds nothing to the readings of its report.
pub proof fn lemma_no_metric_lines_make_no_readings(
    device: Option<Seq<char>>,
    lines: Seq<Seq<char>>,
)
    requires
        forall|i: int| 0 <= i < lines.len() ==> metric_of(#[trigger] lines[i]) is None,
    ensures
        readings_from(device, lines) == Seq::<ReadingView>::empty(),
    decreases lines.len(),
{
    if lines.len() > 0 {
        lemma_no_metric_lines_make_no_readings(step(device, lines[0]).0, lines.drop_first());
    }
}

/// An empty line that follows an empty line changes nothing.
pub proof fn lemma_repeated_empty_line_changes_nothing(
    device: Option<Seq<char>>,
    before: Seq<Seq<char>>,
    after: Seq<Seq<char>>,
)
    ensures
        readings_from(
            device,
            before + seq![Seq::<char>::empty(), Seq::<char>::empty()] + after,
        ) == readings_from(device, before + seq![Seq::<char>::empty()] + after),
{
    let blank = Seq::<char>::empty();
    assert(before + seq![blank, blank] + after == before + (seq![blank, blank] + after));
    assert(before + seq![blank] + after == before + (seq![blank] + after));
    lemma_readings_in_pieces(device, before, seq![blank, blank] + after);
    lemma_readings_in_pieces(device, before, seq![blank] + after);
    assert((seq![blank, blank] + after).drop_first() == seq![blank] + after);
    assert((seq![blank] + after).drop_first() == after);
    assert(readings_from(None, seq![blank] + after) == readings_from(None, after));
}

/// The last section of a report needs no empty line after it: an empty
/// line at the end of a report adds no reading.
pub proof fn lemma_last_empty_line_changes_nothing(lines: Seq<Seq<char>>)
    ensures
        readings_of_lines(lines + seq![Seq::<char>::empty()]) == readings_of_lines(lines),
{
    let blank = Seq::<char>::empty();
    lemma_readings_in_pieces(None, lines, seq![blank]);
    assert(readings_from(None, seq![blank].drop_first()) == Seq::<ReadingView>::empty());
}

/// A report without a line that is not empty has no readings.
pub proof fn lemma_blank_report_has_no_readings(text: Seq<char>)
    requires
        forall|i: int| 0 <= i < lines_of(text).len() ==> (#[trigger] lines_of(text)[i]).len() == 0,
    ensures
        readings_of(text) == Seq::<ReadingView>::empty(),
{
    lemma_empty_lines_make_no_readings(None, lines_of(text));
}

/// Inside a section, a line that is not empty and is no metric line makes
/// no reading and leaves the parser in the section: the report reads as if
/// the line were not there.
pub proof fn lemma_unmatched_line_changes_nothing(
    device: Option<Seq<char>>,
    before: Seq<Seq<char>>,
    line: Seq<char>,
    after: Seq<Seq<char>>,
)
    requires
        device_after(device, before) is Some,
        line.len() > 0,
        metric_of(line) is None,
    ensures
        step(device_after(device, before), line) == (
            device_after(device, before),
            None::<ReadingView>,
        ),
        readings_from(device, before + seq![line] + after) == readings_from(
            device,
            before + after,
        ),
        device_after(device, before + seq![line] + after) == device_after(device, before + after),
{
    assert(before + seq![line] + after == before + (seq![line] + after));
    lemma_readings_in_pieces(device, before, seq![line] + after);
    lemma_readings_in_pieces(device, before, after);
    assert((seq![line] + after).drop_first() == after);
}

/// Two sections that an empty line separates are read independently: the
/// readings of the whole are those of the lines before the empty line,
/// followed by those of the lines after it read on their own.
pub proof fn lemma_sections_are_independent(first: Seq<Seq<char>>, second: Seq<Seq<char>>)
    ensures
        readings_of_lines(first + seq![Seq::<char>::empty()] + second) == readings_of_lines(first)
            + readings_of_lines(second),
{
    let blank = Seq::<char>::empty();
    assert(first + seq![blank] + second == first + (seq![blank] + second));
    lemma_readings_in_pieces(None, first, seq![blank] + second);
    assert((seq![blank] + second).drop_first() == second);
}

/// The readings of a report depend on its text alone: what two runs of the
/// parser give for one text is the same.
pub proof fn lemma_parsing_is_repeatable(
    text: Seq<char>,
    once: Seq<ReadingView>,
    again: Seq<ReadingView>,
)
    requires
        once == readings_of(text),
        again == readings_of(text),
    ensures
        once == again,
{
}

/// Where the section of line `at` starts: the first of the lines before it,
/// and up to it, that no empty line parts from it.
pub open spec fn section_start(lines: Seq<Seq<char>>, at: int) -> int
    decreases at,
{
    if 0 < at <= lines.len() && lines[at - 1].len() > 0 {
        section_start(lines, at - 1)
    } else {
        at
    }
}

/// The reading that line `at` of a report makes, if it makes one: the line
/// is a metric line, it is not the first line of its section, and the
/// device is the header with which its section starts.
pub open spec fn reading_at(lines: Seq<Seq<char>>, at: int) -> Option<ReadingView> {
    let header = section_start(lines, at);
    if 0 <= header < at < lines.len() && lines[at].len() > 0 && metric_of(lines[at]) is Some {
        Some(reading_of(lines[header], metric_of(lines[at])->0))
    } else {
        None
    }
}

/// The readings that the first `count` lines of a report make, line by
/// line and in the order of the lines.
pub open spec fn readings_up_to(lines: Seq<Seq<char>>, count: int) -> Seq<ReadingView>
    decreases count,
{
    if count <= 0 {
        Seq::empty()
    } else {
        match reading_at(lines, count - 1) {
            Some(r) => readings_up_to(lines, count - 1).push(r),
            None => readings_up_to(lines, count - 1),
        }
    }
}

/// A section starts at or before each of its lines, with a line that is
/// not empty and that follows an empty line or starts the report; no line
/// of the section up to the given one is empty.
pub proof fn lemma_section_start(lines: Seq<Seq<char>>, at: int)
    requires
        0 <= at < lines.len(),
        lines[at].len() > 0,
    ensures
        0 <= section_start(lines, at) <= at,
        section_start(lines, at) > 0 ==> lines[section_start(lines, at) - 1].len() == 0,
        forall|i: int| section_start(lines, at) <= i <= at ==> (#[trigger] lines[i]).len() > 0,
    decreases at,
{
    if at > 0 && lines[at - 1].len() > 0 {
        lemma_section_start(lines, at - 1);
    }
}

/// After the first `count` lines the parser is in the section of the last
/// of them, under the header with which that section starts; it is in no
/// section if that line is empty or if there is none.
proof fn lemma_device_after_prefix(lines: Seq<Seq<char>>, count: int)
    requires
        0 <= count <= lines.len(),
    ensures
        device_after(None, lines.take(count)) == if count > 0 && lines[count - 1].len() > 0 {
            Some(lines[section_start(lines, count - 1)])
        } else {
            None
        },
        readings_from(None, lines.take(count)) == readings_up_to(lines, count),
    decreases count,
{
    if count > 0 {
        let before = lines.take(count - 1);
        let line = lines[count - 1];
        lemma_device_after_prefix(lines, count - 1);
        assert(lines.take(count) == before + seq![line]);
        lemma_readings_in_pieces(None, before, seq![line]);
        let device = device_after(None, before);
        assert(device_after(step(device, line).0, seq![line].drop_first()) == step(
            device,
            line,
        ).0);
        assert(readings_from(step(device, line).0, seq![line].drop_first()) == Seq::<
            ReadingView,
        >::empty());
        if line.len() > 0 {
            lemma_section_start(lines, count - 1);
        }
    }
}

/// Each reading of a report comes from one metric line, with the header of
/// the section around that line as its device, and the readings stand in
/// the order of their lines.
pub proof fn lemma_readings_line_by_line(lines: Seq<Seq<char>>)
    ensures
        readings_of_lines(lines) == readings_up_to(lines, lines.len() as int),
{
    lemma_device_after_prefix(lines, lines.len() as int);
    assert(lines.take(lines.len() as int) == lines);
}

/// Whether line `at` is the header of a section: it is not empty, and it
/// follows an empty line or starts the report.
pub open spec fn is_header(lines: Seq<Seq<char>>, at: int) -> bool {
    &&& 0 <= at < lines.len()
    &&& lines[at].len() > 0
    &&& at > 0 ==> lines[at - 1].len() == 0
}

/// The device of a reading that the first `count` lines make is the header
/// of a section among them.
proof fn lemma_device_is_header_up_to(lines: Seq<Seq<char>>, count: int, at: int)
    requires
        0 <= count <= lines.len(),
        0 <= at < readings_up_to(lines, count).len(),
    ensures
        exists|header: int|
            header < count && #[trigger] is_header(lines, header) && lines[header]
                == readings_up_to(lines, count)[at].device,
    decreases count,
{
    let before = readings_up_to(lines, count - 1);
    if reading_at(lines, count - 1) is Some && at == before.len() {
        lemma_section_start(lines, count - 1);
        assert(is_header(lines, section_start(lines, count - 1)));
    } else {
        lemma_device_is_header_up_to(lines, count - 1, at);
    }
}

/// The device of every reading of a report is the header of one of its
/// sections.
pub proof fn lemma_devices_are_headers(lines: Seq<Seq<char>>, at: int)
    requires
        0 <= at < readings_of_lines(lines).len(),
    ensures
        exists|header: int| #[trigger]
            is_header(lines, header) && lines[header] == readings_of_lines(lines)[at].device,
{
    lemma_readings_line_by_line(lines);
    lemma_device_is_header_up_to(lines, lines.len() as int, at);
}

/// The value of every reading is a signed decimal number.
pub proof fn lemma_values_are_decimal(device: Option<Seq<char>>, lines: Seq<Seq<char>>, at: int)
    requires
        0 <= at < readings_from(device, lines).len(),
    ensures
        is_decimal(readings_from(device, lines)[at].value),
    decreases lines.len(),
{
    if lines.len() > 0 {
        let (next, reading) = step(device, lines.first());
        if reading is Some && at == 0 {
            lemma_span_value_is_decimal(lines.first());
        } else if reading is Some {
            lemma_values_are_decimal(next, lines.drop_first(), at - 1);
        } else {
            lemma_values_are_decimal(next, lines.drop_first(), at);
        }
    }
}

} // verus!
