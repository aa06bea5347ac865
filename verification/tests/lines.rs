use sensorlog::lines::split_lines;

#[test]
fn lines_of_an_empty_text() {
    assert!(split_lines("").is_empty());
}

#[test]
fn last_line_needs_no_line_feed() {
    assert_eq!(split_lines("a\nb"), vec!["a", "b"]);
    assert_eq!(split_lines("a\nb\n"), vec!["a", "b"]);
}

#[test]
fn empty_lines_are_lines() {
    assert_eq!(split_lines("\n"), vec![""]);
    assert_eq!(split_lines("a\n\nb\n\n"), vec!["a", "", "b", ""]);
}

#[test]
fn carriage_return_belongs_to_the_line_ending_only_before_a_line_feed() {
    assert_eq!(split_lines("a\r\nb\r\n"), vec!["a", "b"]);
    assert_eq!(split_lines("a\rb\n"), vec!["a\rb"]);
    assert_eq!(split_lines("a\r"), vec!["a\r"]);
    assert_eq!(split_lines("a\r\r\n"), vec!["a\r"]);
    assert_eq!(split_lines("\r\n"), vec![""]);
}

#[test]
fn lines_are_those_of_the_standard_library() {
    let texts = [
        "",
        "\n",
        "\r",
        "\r\n",
        "\n\r",
        "a",
        "a\n",
        "a\r\n",
        "a\n\r\nb",
        "a\r\rb\r\n\r\n",
        "°C\n\u{2028}x\r\n",
        "one\ntwo\n\nthree\n\n\n",
        "acpitz-virtual-0\ntemp1:        +27.8°C  (crit = +105.0°C)\n\ncoretemp-isa-0000\n",
    ];
    for text in texts {
        let expected: Vec<String> = text.lines().map(|l| l.to_string()).collect();
        assert_eq!(split_lines(text), expected, "text {:?}", text);
    }
}
