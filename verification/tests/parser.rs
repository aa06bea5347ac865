use sensorlog::parser::{parse_readings, ParserState};
use sensorlog::reading::SensorReading;

fn fields(r: &SensorReading) -> (&str, &str, &str, &str) {
    (r.device(), r.label(), r.value().as_str(), r.units())
}

fn number(r: &SensorReading) -> f64 {
    r.value().as_str().parse().expect("a number")
}

#[test]
fn empty_text_has_no_readings() {
    assert!(parse_readings("").is_empty());
}

#[test]
fn text_of_empty_lines_has_no_readings() {
    assert!(parse_readings("\n").is_empty());
    assert!(parse_readings("\n\n\n\n").is_empty());
    assert!(parse_readings("\r\n\r\n").is_empty());
}

#[test]
fn single_section_single_metric() {
    let text = "coretemp-isa-0000\nCore 0:       +45.0°C  (high = +80.0°C, crit = +90.0°C)";
    let readings = parse_readings(text);
    assert_eq!(readings.len(), 1);
    assert_eq!(fields(&readings[0]), ("coretemp-isa-0000", "Core 0", "+45.0", "°C"));
    assert_eq!(number(&readings[0]), 45.0);
}

#[test]
fn line_without_value_is_passed_over() {
    let text = "coretemp-isa-0000\n(no label):\nCore 0:       +45.0°C\n";
    let readings = parse_readings(text);
    assert_eq!(readings.len(), 1);
    assert_eq!(fields(&readings[0]), ("coretemp-isa-0000", "Core 0", "+45.0", "°C"));
}

#[test]
fn unmatched_lines_between_metrics_change_nothing() {
    let with = "chip\nAdapter: ISA adapter\nfan1:  1200 RPM\n  garbage\nfan2:  900 RPM\n";
    let without = "chip\nfan1:  1200 RPM\nfan2:  900 RPM\n";
    let a = parse_readings(with);
    let b = parse_readings(without);
    assert_eq!(a, b);
    assert_eq!(a.len(), 2);
    assert_eq!(fields(&a[0]), ("chip", "fan1", "1200", "RPM"));
    assert_eq!(fields(&a[1]), ("chip", "fan2", "900", "RPM"));
}

#[test]
fn sections_are_parsed_independently() {
    let first = "acpitz-virtual-0\ntemp1:        +27.8°C  (crit = +105.0°C)";
    let second = "coretemp-isa-0000\nCore 0:        +43.0°C";
    let joined = format!("{}\n\n{}", first, second);
    let mut expected = parse_readings(first);
    expected.extend(parse_readings(second));
    let readings = parse_readings(&joined);
    assert_eq!(readings, expected);
    assert_eq!(readings.len(), 2);
    assert_eq!(readings[0].device(), "acpitz-virtual-0");
    assert_eq!(readings[1].device(), "coretemp-isa-0000");
}

#[test]
fn parsing_twice_gives_the_same_readings() {
    let text = "acpitz-virtual-0\ntemp1:        +27.8°C  (crit = +105.0°C)\n\nnct6775-isa-0290\nfan1:  1200 RPM\nbad line\n";
    assert_eq!(parse_readings(text), parse_readings(text));
}

#[test]
fn two_sections_end_to_end() {
    let text = "acpitz-virtual-0\n\
                temp1:        +27.8°C  (crit = +105.0°C)\n\
                \n\
                coretemp-isa-0000\n\
                Package id 0:  +45.0°C  (high = +80.0°C, crit = +100.0°C)\n\
                Core 0:        +43.0°C  (high = +80.0°C, crit = +100.0°C)\n";
    let readings = parse_readings(text);
    assert_eq!(readings.len(), 3);
    assert_eq!(fields(&readings[0]), ("acpitz-virtual-0", "temp1", "+27.8", "°C"));
    assert_eq!(fields(&readings[1]), ("coretemp-isa-0000", "Package id 0", "+45.0", "°C"));
    assert_eq!(fields(&readings[2]), ("coretemp-isa-0000", "Core 0", "+43.0", "°C"));
    assert_eq!(number(&readings[0]), 27.8);
    assert_eq!(number(&readings[1]), 45.0);
    assert_eq!(number(&readings[2]), 43.0);
}

#[test]
fn negative_value() {
    let readings = parse_readings("coretemp-isa-0000\nCore 0:       -5.2°C");
    assert_eq!(readings.len(), 1);
    assert_eq!(readings[0].value().as_str(), "-5.2");
    assert_eq!(number(&readings[0]), -5.2);
}

#[test]
fn section_without_metric_lines_has_no_readings() {
    assert!(parse_readings("coretemp-isa-0000\n").is_empty());
    assert!(parse_readings("coretemp-isa-0000\nAdapter: ISA adapter\n\n").is_empty());
}

#[test]
fn header_is_never_read_as_a_metric() {
    let readings = parse_readings("temp1: +1.0 C\ntemp2: +2.0 C\n");
    assert_eq!(readings.len(), 1);
    assert_eq!(fields(&readings[0]), ("temp1: +1.0 C", "temp2", "+2.0", "C"));
}

#[test]
fn header_is_kept_verbatim() {
    let readings = parse_readings("  chip-0  (rev 2) \ntemp1: 30 C\n");
    assert_eq!(readings.len(), 1);
    assert_eq!(readings[0].device(), "  chip-0  (rev 2) ");
}

#[test]
fn consecutive_blank_lines_are_tolerated() {
    let text = "a\nt: 1 C\n\n\n\nb\nt: 2 C\n";
    let readings = parse_readings(text);
    assert_eq!(readings.len(), 2);
    assert_eq!(fields(&readings[0]), ("a", "t", "1", "C"));
    assert_eq!(fields(&readings[1]), ("b", "t", "2", "C"));
}

#[test]
fn leading_blank_lines_are_tolerated() {
    let readings = parse_readings("\n\nchip\nt: 1 C\n");
    assert_eq!(readings.len(), 1);
    assert_eq!(fields(&readings[0]), ("chip", "t", "1", "C"));
}

#[test]
fn last_section_needs_no_blank_line() {
    let readings = parse_readings("a\nt: 1 C\n\nb\nu: 2 V");
    assert_eq!(readings.len(), 2);
    assert_eq!(fields(&readings[1]), ("b", "u", "2", "V"));
}

#[test]
fn carriage_returns_before_line_feeds_are_line_endings() {
    let readings = parse_readings("chip\r\nt: 1 C\r\n\r\nother\r\nu: 2 V\r\n");
    assert_eq!(readings.len(), 2);
    assert_eq!(fields(&readings[0]), ("chip", "t", "1", "C"));
    assert_eq!(fields(&readings[1]), ("other", "u", "2", "V"));
}

#[test]
fn readings_keep_the_order_of_their_lines() {
    let text = "chip\nz: 1 C\ny: 2 C\nx: 3 C\n";
    let readings = parse_readings(text);
    let labels: Vec<&str> = readings.iter().map(|r| r.label()).collect();
    assert_eq!(labels, vec!["z", "y", "x"]);
}

#[test]
fn feeding_lines_one_by_one_is_parsing_the_report() {
    let text = "acpitz-virtual-0\ntemp1:        +27.8°C\n\n\ncoretemp-isa-0000\nnoise\nCore 0:  +43.0°C\r\n\nlast\nfan: 5 RPM";
    let mut state = ParserState::new();
    let mut fed = Vec::new();
    for line in text.lines() {
        let (next, reading) = state.feed(line);
        state = next;
        fed.extend(reading);
    }
    assert_eq!(fed, parse_readings(text));
    assert_eq!(fed.len(), 3);
    assert_eq!(state, ParserState::InDevice("last".to_string()));
}

#[test]
fn parser_states_follow_the_lines() {
    let state = ParserState::new();
    assert_eq!(state, ParserState::NoCurrentDevice);
    let (state, reading) = state.feed("");
    assert_eq!(state, ParserState::NoCurrentDevice);
    assert!(reading.is_none());
    let (state, reading) = state.feed("chip");
    assert_eq!(state, ParserState::InDevice("chip".to_string()));
    assert!(reading.is_none());
    let (state, reading) = state.feed("not a metric");
    assert_eq!(state, ParserState::InDevice("chip".to_string()));
    assert!(reading.is_none());
    let (state, reading) = state.feed("in0:  +1.05 V  (min = +0.00 V)");
    assert_eq!(state, ParserState::InDevice("chip".to_string()));
    let reading = reading.expect("a reading");
    assert_eq!(fields(&reading), ("chip", "in0", "+1.05", "V"));
    let (state, reading) = state.feed("");
    assert_eq!(state, ParserState::NoCurrentDevice);
    assert!(reading.is_none());
}
