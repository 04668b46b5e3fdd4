use clipboard_manager::preview::{
    chars_of, join_lines, mark_white, text_of, trim_marked, truncate_string,
};

fn by_the_standard_library(text: &str, max_chars: usize) -> String {
    if text.chars().count() <= max_chars {
        text.lines().take(4).collect::<Vec<_>>().join(" ").chars().take(max_chars).collect()
    } else {
        let cut: String = text.chars().take(max_chars).collect();
        format!("{}...", cut.trim())
    }
}

#[test]
fn short_text_is_shown_as_it_is() {
    assert_eq!(truncate_string("hello", 150), "hello");
    assert_eq!(truncate_string("", 150), "");
    assert_eq!(truncate_string("  padded  ", 150), "  padded  ");
}

#[test]
fn lines_of_a_short_text_are_joined_with_spaces() {
    assert_eq!(truncate_string("a\nb\nc", 150), "a b c");
    assert_eq!(truncate_string("a\r\nb\r\nc", 150), "a b c");
    assert_eq!(truncate_string("a\n\nb", 150), "a  b");
    assert_eq!(truncate_string("\n", 150), "");
    assert_eq!(truncate_string("\n\n", 150), " ");
    assert_eq!(truncate_string("a\n", 150), "a");
    assert_eq!(truncate_string("a\r", 150), "a\r");
    assert_eq!(truncate_string("a\rb\nc", 150), "a\rb c");
    assert_eq!(truncate_string("\r\n", 150), "");
}

#[test]
fn only_four_lines_of_a_short_text_are_shown() {
    assert_eq!(truncate_string("1\n2\n3\n4\n5\n6", 150), "1 2 3 4");
    assert_eq!(truncate_string("1\n2\n3\n4\n", 150), "1 2 3 4");
    assert_eq!(truncate_string("1\n2\n3\n4", 150), "1 2 3 4");
}

#[test]
fn joined_lines_are_cut_at_the_limit() {
    assert_eq!(truncate_string("ab\ncd", 5), "ab cd");
    assert_eq!(truncate_string("a\n\n\nb", 5), "a   b");
    assert_eq!(truncate_string("\n\n\n\n", 4), "   ");
    assert_eq!(truncate_string("abc", 3), "abc");
    assert_eq!(truncate_string("", 0), "");
}

#[test]
fn long_text_is_cut_trimmed_and_marked() {
    assert_eq!(truncate_string("abcdef", 3), "abc...");
    assert_eq!(truncate_string("ab   cdef", 4), "ab...");
    assert_eq!(truncate_string("  ab  cdef", 5), "ab...");
    assert_eq!(truncate_string("      x", 3), "...");
    assert_eq!(truncate_string("x", 0), "...");
    assert_eq!(truncate_string("a\nb\nc", 3), "a\nb...");
}

#[test]
fn limit_counts_characters_not_bytes() {
    assert_eq!(truncate_string("\u{00e9}\u{00e9}\u{00e9}", 3), "\u{00e9}\u{00e9}\u{00e9}");
    assert_eq!(truncate_string("\u{00e9}\u{00e9}\u{00e9}\u{00e9}", 3), "\u{00e9}\u{00e9}\u{00e9}...");
    assert_eq!(truncate_string("\u{1f600}\u{1f600}", 1), "\u{1f600}...");
}

#[test]
fn white_space_beyond_ascii_is_trimmed() {
    assert_eq!(truncate_string("\u{00a0}\u{3000}ab\u{2003}\t cdef", 7), "ab...");
    assert_eq!(truncate_string("\u{200b}ab cdef", 3), "\u{200b}ab...");
}

#[test]
fn preview_agrees_with_the_standard_library() {
    let samples = [
        "",
        "a",
        "hello world",
        "line one\nline two\nline three\nline four\nline five",
        "windows\r\nline\r\nendings\r\n",
        "trailing\n",
        "\n\nleading",
        "\r\r\n\r",
        "tabs\tand\u{00a0}spaces\u{3000}",
        "   surrounded by blanks   ",
        "\u{1f600} emoji \u{1f600}\n\u{00e9}t\u{00e9}",
        "a\n\n\n\n\n\n",
        " \n \n \n \n ",
    ];
    for sample in samples {
        for max_chars in 0..40 {
            assert_eq!(
                truncate_string(sample, max_chars),
                by_the_standard_library(sample, max_chars),
                "text {:?}, limit {}",
                sample,
                max_chars
            );
        }
    }
    let long = "word ".repeat(100);
    for max_chars in [0, 1, 4, 5, 149, 150, 151, 499, 500, 501] {
        assert_eq!(truncate_string(&long, max_chars), by_the_standard_library(&long, max_chars));
    }
}

#[test]
fn chars_and_text_convert_both_ways() {
    assert_eq!(chars_of("h\u{00e9}llo"), vec!['h', '\u{00e9}', 'l', 'l', 'o']);
    assert_eq!(text_of(&vec!['h', '\u{00e9}', 'l', 'l', 'o']), "h\u{00e9}llo");
    assert_eq!(text_of(&Vec::new()), "");
}

#[test]
fn join_lines_takes_the_number_of_lines_asked_for() {
    let chars = chars_of("a\nb\nc");
    assert_eq!(join_lines(&chars, 0), Vec::<char>::new());
    assert_eq!(join_lines(&chars, 1), vec!['a']);
    assert_eq!(join_lines(&chars, 2), vec!['a', ' ', 'b']);
    assert_eq!(join_lines(&chars, 9), vec!['a', ' ', 'b', ' ', 'c']);
}

#[test]
fn mark_white_marks_each_character() {
    assert_eq!(mark_white(&chars_of(" a\tb\u{00a0}")), vec![true, false, true, false, true]);
}

#[test]
fn trim_marked_drops_marked_ends() {
    let chars = chars_of("abcde");
    assert_eq!(trim_marked(&chars, &vec![true, true, false, true, true]), vec!['c']);
    assert_eq!(trim_marked(&chars, &vec![false, true, true, true, false]), chars);
    assert_eq!(trim_marked(&chars, &vec![true, false, true, false, true]), vec!['b', 'c', 'd']);
    assert_eq!(trim_marked(&chars, &vec![true; 5]), Vec::<char>::new());
    assert_eq!(trim_marked(&Vec::new(), &Vec::new()), Vec::<char>::new());
}
