use xtal::position::get_line_number;

/// The line of an offset, found by cutting the text after every line feed.
fn line_by_cutting(source_text: &str, offset: usize) -> usize {
    let mut cumulative_end = 0;
    let mut lines = 0;
    for line in source_text.split_inclusive('\n') {
        lines += 1;
        cumulative_end += if line.ends_with('\n') { line.len() } else { line.len() + 1 };
        if offset < cumulative_end {
            return lines;
        }
    }
    lines
}

#[test]
fn first_line_holds_offset_zero() {
    assert_eq!(get_line_number("5;", 0), 1);
}

#[test]
fn offsets_on_each_line() {
    let source = "a;\nbb;\n\nc;";
    assert_eq!(get_line_number(source, 0), 1);
    assert_eq!(get_line_number(source, 1), 1);
    assert_eq!(get_line_number(source, 2), 1);
    assert_eq!(get_line_number(source, 3), 2);
    assert_eq!(get_line_number(source, 6), 2);
    assert_eq!(get_line_number(source, 7), 3);
    assert_eq!(get_line_number(source, 8), 4);
    assert_eq!(get_line_number(source, 9), 4);
}

#[test]
fn line_feed_belongs_to_its_line() {
    assert_eq!(get_line_number("ab\ncd", 2), 1);
    assert_eq!(get_line_number("ab\ncd", 3), 2);
}

#[test]
fn offset_past_the_end_gives_last_line() {
    assert_eq!(get_line_number("a\nb\nc", 5), 3);
    assert_eq!(get_line_number("a\nb\nc", 6), 3);
    assert_eq!(get_line_number("a\nb\nc", 1000), 3);
    assert_eq!(get_line_number("a\nb\n", 4), 2);
    assert_eq!(get_line_number("a\nb\n", usize::MAX), 2);
}

#[test]
fn empty_text_has_no_line() {
    assert_eq!(get_line_number("", 0), 0);
    assert_eq!(get_line_number("", 7), 0);
}

#[test]
fn blank_first_line_then_statement() {
    let source = "\n\"x\" + \"y\";";
    assert_eq!(get_line_number(source, 0), 1);
    assert_eq!(get_line_number(source, 1), 2);
}

#[test]
fn third_line_after_two_blank_lines() {
    let source = "\n\nconsole.log(\"a\", \"b\")";
    assert_eq!(get_line_number(source, 2), 3);
}

#[test]
fn carriage_return_before_line_feed_is_part_of_the_line() {
    // line 1 is "ab\r" with its line feed: 4 bytes
    let source = "ab\r\ncd";
    assert_eq!(get_line_number(source, 2), 1);
    assert_eq!(get_line_number(source, 3), 1);
    assert_eq!(get_line_number(source, 4), 2);
    assert_eq!(get_line_number(source, 5), 2);
}

#[test]
fn line_feed_after_carriage_return_ends_the_first_line() {
    assert_eq!(get_line_number("a\r\nb", 0), 1);
    assert_eq!(get_line_number("a\r\nb", 1), 1);
    assert_eq!(get_line_number("a\r\nb", 2), 1);
    assert_eq!(get_line_number("a\r\nb", 3), 2);
}

#[test]
fn offsets_do_not_drift_in_a_text_with_carriage_returns() {
    let source = "one;\r\ntwo;\r\nthree;\r\nfour;";
    for (line, word) in ["one", "two", "three", "four"].iter().enumerate() {
        let start = source.find(word).unwrap();
        assert_eq!(get_line_number(source, start), line + 1, "{}", word);
    }
}

#[test]
fn lone_carriage_return_is_part_of_the_line() {
    assert_eq!(get_line_number("a\rb\nc", 3), 1);
    assert_eq!(get_line_number("a\rb\nc", 4), 2);
}

#[test]
fn lengths_are_counted_in_bytes() {
    // "é" takes two bytes
    let source = "é;\n1;";
    assert_eq!(get_line_number(source, 3), 1);
    assert_eq!(get_line_number(source, 4), 2);
}

#[test]
fn agrees_with_cutting_after_line_feeds() {
    let sources = [
        "",
        "\n",
        "\n\n",
        "a",
        "a\n",
        "a\nb",
        "a\r\nb\r\n",
        "\r\n\r\nx",
        "a\r",
        "a\r\n\r",
        "let x = 1;\nx;\n\n// note\nx + 1;\n",
        "é\nü\r\n漢字\n",
        "\r",
        "\n\r\n",
    ];
    for source in sources {
        for offset in 0..(source.len() + 3) {
            assert_eq!(
                get_line_number(source, offset),
                line_by_cutting(source, offset),
                "source {:?}, offset {}",
                source,
                offset
            );
        }
    }
}

#[test]
fn line_is_one_more_than_the_line_feeds_before_the_offset() {
    let sources = [
        "a",
        "a\nb",
        "\n\n\nx",
        "let x = 1;\nx;\n\n// note\nx + 1;\n",
        "é\nü\n漢字\n",
        "a\r\nb\r\n\r\nc",
    ];
    for source in sources {
        for offset in 0..source.len() {
            let feeds = source.as_bytes()[..offset].iter().filter(|byte| **byte == b'\n').count();
            assert_eq!(get_line_number(source, offset), feeds + 1, "{:?} at {}", source, offset);
        }
    }
}
