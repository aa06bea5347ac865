//! The parser of sensor reports.
//!
//! A report is a list of device sections. A section starts with a header
//! line, which names the device, and ends with an empty line or with the
//! report. Each line of a section after its header is either a metric line,
//! which makes one reading under that device, or is passed over.
//!
//! The parser reads line by line and keeps one thing between lines: the
//! device of the section it is in, if it is in one.

use crate::lines::{lines_of, next_line};
use crate::metric::{metric_of, parse_metric_chars};
use crate::reading::{reading_of, ReadingView, SensorReading};
use crate::scan::{chars_of, text_of};
use vstd::prelude::*;
use vstd::slice::slice_subrange;

verus! {

/// What one line does to the parser: the device after the line, and the
/// reading that the line makes, if it makes one.
///
/// An empty line ends the section. Outside a section, a line that is not
/// empty is the header of a new one and makes no reading. Inside a section,
/// a metric line makes a reading under the section's device; any other line
/// makes none and changes nothing.
pub open spec fn step(device: Option<Seq<char>>, line: Seq<char>) -> (
    Option<Seq<char>>,
    Option<ReadingView>,
) {
    if line.len() == 0 {
        (None, None)
    } else {
        match device {
            None => (Some(line), None),
            Some(name) => match metric_of(line) {
                Some(metric) => (device, Some(reading_of(name, metric))),
                None => (device, None),
            },
        }
    }
}

/// The device that the parser is in after `lines`, when it was in `device`
/// before them.
pub open spec fn device_after(device: Option<Seq<char>>, lines: Seq<Seq<char>>) -> Option<
    Seq<char>,
>
    decreases lines.len(),
{
    if lines.len() == 0 {
        device
    } else {
        device_after(step(device, lines.first()).0, lines.drop_first())
    }
}

/// The readings that `lines` make, in the order of the lines, when the
/// parser is in `device` before them.
pub open spec fn readings_from(device: Option<Seq<char>>, lines: Seq<Seq<char>>) -> Seq<
    ReadingView,
>
    decreases lines.len(),
{
    if lines.len() == 0 {
        Seq::empty()
    } else {
        let (next, reading) = step(device, lines.first());
        let rest = readings_from(next, lines.drop_first());
        match reading {
            Some(r) => seq![r] + rest,
            None => rest,
        }
    }
}

/// The readings of a report that is given by its lines.
pub open spec fn readings_of_lines(lines: Seq<Seq<char>>) -> Seq<ReadingView> {
    readings_from(None, lines)
}

/// The readings of a report.
pub open spec fn readings_of(text: Seq<char>) -> Seq<ReadingView> {
    readings_of_lines(lines_of(text))
}

/// What the parser keeps between two lines.
#[derive(Debug, PartialEq, Eq)]
pub enum ParserState {
    /// The parser is outside any section: the next line that is not empty
    /// is a header.
    NoCurrentDevice,
    /// The parser is inside the section of the device named.
    InDevice(String),
}

impl View for ParserState {
    type V = Option<Seq<char>>;

    open spec fn view(&self) -> Option<Seq<char>> {
        match self {
            ParserState::NoCurrentDevice => None,
            ParserState::InDevice(name) => Some(name@),
        }
    }
}

impl ParserState {
    /// The state before the first line of a report.
    pub fn new() -> (state: ParserState)
        ensures
            state@ is None,
    {
        ParserState::NoCurrentDevice
    }

    /// Reads one line that is given by its characters.
    pub(crate) fn feed_chars(self, line: &[char]) -> (out: (ParserState, Option<SensorReading>))
        ensures
            out.0@ == step(self@, line@).0,
            match out.1 {
                Some(reading) => step(self@, line@).1 == Some(reading@),
                None => step(self@, line@).1 is None,
            },
    {
        if line.len() == 0 {
            return (ParserState::NoCurrentDevice, None);
        }
        match self {
            ParserState::NoCurrentDevice => {
                (ParserState::InDevice(text_of(line, 0, line.len())), None)
            },
            ParserState::InDevice(name) => match parse_metric_chars(line) {
                Some(metric) => {
                    let reading = SensorReading::new(name.clone(), metric);
                    (ParserState::InDevice(name), Some(reading))
                },
                None => (ParserState::InDevice(name), None),
            },
        }
    }

    /// Reads one line: gives the state after it, and the reading that the
    /// line makes, if it makes one.
    pub fn feed(self, line: &str) -> (out: (ParserState, Option<SensorReading>))
        ensures
            out.0@ == step(self@, line@).0,
            match out.1 {
                Some(reading) => step(self@, line@).1 == Some(reading@),
                None => step(self@, line@).1 is None,
            },
    {
        let chars = chars_of(line);
        self.feed_chars(chars.as_slice())
    }
}

/// Reads a report: gives the readings of its metric lines, in the order of
/// the lines, each under the device of its section.
pub fn parse_readings(text: &str) -> (readings: Vec<SensorReading>)
    ensures
        readings@.map_values(|r: SensorReading| r@) == readings_of(text@),
{
    let chars = chars_of(text);
    let mut readings: Vec<SensorReading> = Vec::new();
    let mut state = ParserState::new();
    let mut from: usize = 0;
    assert(chars@.skip(0) == chars@);
    while from < chars.len()
        invariant
            from <= chars.len(),
            readings_of(chars@) == readings@.map_values(|r: SensorReading| r@) + readings_from(
                state@,
                lines_of(chars@.skip(from as int)),
            ),
        decreases chars.len() - from,
    {
        let (end, next) = next_line(chars.as_slice(), from);
        let line = slice_subrange(chars.as_slice(), from, end);
        assert(lines_of(chars@.skip(from as int)).drop_first() == lines_of(
            chars@.skip(next as int),
        ));
        let (after, reading) = state.feed_chars(line);
        state = after;
        if let Some(r) = reading {
            readings.push(r);
        }
        from = next;
    }
    readings
}

} // verus!
