use add_pr_comment::anchor::{inline_thread_context, line_end_offset};

#[test]
fn test_line_end_offset_is_utf16_len_plus_one() {
    // line 1 = "first line" (10), line 2 = "    second" (10), line 3 = "café" (4)
    let contents = Some("first line\n    second\ncafé\n");

    // Offset = (line length in UTF-16 code units) + 1, covering the whole line.
    assert_eq!(line_end_offset(contents, 1), Some(11));
    assert_eq!(line_end_offset(contents, 2), Some(11));
    // "café" is 4 UTF-16 code units (é is BMP) -> 5
    assert_eq!(line_end_offset(contents, 3), Some(5));
    // Out-of-range line, missing file, and non-positive line -> None (fallback).
    assert_eq!(line_end_offset(contents, 99), None);
    assert_eq!(line_end_offset(None, 1), None);
    assert_eq!(line_end_offset(contents, 0), None);
}

#[test]
fn line_endings_are_not_measured() {
    let contents = Some("ab\r\n\r\n\nabc\r\r\nx\r");
    assert_eq!(line_end_offset(contents, 1), Some(3));
    assert_eq!(line_end_offset(contents, 2), Some(1));
    assert_eq!(line_end_offset(contents, 3), Some(1));
    assert_eq!(line_end_offset(contents, 4), Some(4));
    assert_eq!(line_end_offset(contents, 5), Some(2));
    assert_eq!(line_end_offset(contents, 6), None);
    assert_eq!(line_end_offset(contents, -3), None);
    assert_eq!(line_end_offset(Some(""), 1), None);
    assert_eq!(line_end_offset(Some("a\n"), 2), None);
    assert_eq!(line_end_offset(Some("a\rb"), 1), Some(4));
}

#[test]
fn lines_agree_with_the_standard_library() {
    let text = "one\r\ntwo\n\n\rthree\r\r\nfour \u{1f600}\r";
    let mut number = 0;
    for line in text.lines() {
        number += 1;
        let line = line.strip_suffix('\r').unwrap_or(line);
        assert_eq!(
            line_end_offset(Some(text), number),
            Some(line.encode_utf16().count() + 1)
        );
    }
    assert_eq!(line_end_offset(Some(text), number + 1), None);
}

#[test]
fn characters_beyond_the_first_plane_take_two_units() {
    assert_eq!(line_end_offset(Some("\u{ffff}\u{10000}\u{1f600}"), 1), Some(6));
}

/// The text after the range from the start of `first` to the measured end of `last` gave
/// way to the suggestion.
fn apply(text: &str, first: i32, last: i32, suggestion: &str) -> String {
    let start = |line: i32| -> usize {
        text.split_inclusive('\n')
            .take(line as usize - 1)
            .map(|whole| whole.encode_utf16().count())
            .sum()
    };
    let units: Vec<u16> = text.encode_utf16().collect();
    let to = start(last) + line_end_offset(Some(text), last).unwrap() - 1;
    let mut edited: Vec<u16> = units[..start(first)].to_vec();
    edited.extend(suggestion.encode_utf16());
    edited.extend_from_slice(&units[to..]);
    String::from_utf16(&edited).unwrap()
}

#[test]
fn a_measured_range_covers_the_whole_lines() {
    let text = "keep\nold one\r\nold tw\u{1f600}\r\nkeep too\n";
    assert_eq!(apply(text, 2, 3, "new"), "keep\nnew\r\nkeep too\n");
    assert_eq!(apply(text, 4, 4, "new"), "keep\nold one\r\nold tw\u{1f600}\r\nnew\n");
    assert_eq!(apply("only", 1, 1, ""), "");
}

#[test]
fn a_suggestion_of_several_lines_stands_in_place() {
    let text = "keep\nold one\r\nold two\r\nkeep too\n";
    let edited = apply(text, 2, 3, "a\n\nbc");
    assert_eq!(edited, "keep\na\n\nbc\r\nkeep too\n");
    let lengths: Vec<Option<usize>> =
        (1..7).map(|line| line_end_offset(Some(&edited), line)).collect();
    assert_eq!(lengths, vec![Some(5), Some(2), Some(1), Some(3), Some(9), None]);
}

#[test]
fn an_unmeasured_range_inserts() {
    let text = "keep\nold\n";
    let from = "keep\n".len();
    let offset = line_end_offset(None, 2).unwrap_or(1);
    let to = from + offset - 1;
    let edited = format!("{}{}{}", &text[..from], "new", &text[to..]);
    assert_eq!(edited, "keep\nnewold\n");
}

#[test]
fn test_inline_thread_context_single_line() {
    let tc = inline_thread_context("cs/src/Foo.cs", 27, 27, 74);
    assert_eq!(tc["filePath"], "/cs/src/Foo.cs");
    assert_eq!(tc["rightFileStart"]["line"], 27);
    assert_eq!(tc["rightFileStart"]["offset"], 1);
    assert_eq!(tc["rightFileEnd"]["line"], 27);
    assert_eq!(tc["rightFileEnd"]["offset"], 74);
}

#[test]
fn test_inline_thread_context_multi_line() {
    let tc = inline_thread_context("Directory.Packages.props", 9, 12, 45);
    assert_eq!(tc["filePath"], "/Directory.Packages.props");
    assert_eq!(tc["rightFileStart"]["line"], 9);
    assert_eq!(tc["rightFileStart"]["offset"], 1);
    assert_eq!(tc["rightFileEnd"]["line"], 12);
    assert_eq!(tc["rightFileEnd"]["offset"], 45);
}

#[test]
fn thread_context_text() {
    let tc = inline_thread_context("a \"b\"", -1, 2, usize::MAX);
    assert_eq!(
        tc.to_string(),
        format!(
            "{{\"filePath\":\"/a \\\"b\\\"\",\"rightFileEnd\":{{\"line\":2,\"offset\":{}}},\"rightFileStart\":{{\"line\":-1,\"offset\":1}}}}",
            usize::MAX
        )
    );
}
