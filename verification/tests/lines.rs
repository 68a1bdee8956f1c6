use terminal_execute::lines::{join_last, keep_last_lines, split_lines};
use terminal_execute::output::{show_output, show_text};

#[test]
fn last_two_of_four_lines() {
    assert_eq!(show_text("a\nb\nc\nd", Some(2)), "c\nd");
}

#[test]
fn keep_last_lines_counts_from_the_end() {
    assert_eq!(keep_last_lines("a\nb\nc\nd", 2), "c\nd");
    assert_eq!(keep_last_lines("a\nb\nc\nd", 1), "d");
    assert_eq!(keep_last_lines("a\nb\nc\nd", 3), "b\nc\nd");
    assert_eq!(keep_last_lines("a\nb\nc\nd", 4), "a\nb\nc\nd");
}

#[test]
fn fewer_lines_than_asked_for_gives_all() {
    assert_eq!(keep_last_lines("a\nb", 10), "a\nb");
    assert_eq!(keep_last_lines("only", u32::MAX), "only");
}

#[test]
fn zero_lines_gives_nothing() {
    assert_eq!(keep_last_lines("a\nb\nc", 0), "");
    assert_eq!(keep_last_lines("", 0), "");
}

#[test]
fn empty_text_has_no_lines() {
    assert_eq!(split_lines(""), Vec::<String>::new());
    assert_eq!(keep_last_lines("", 5), "");
}

#[test]
fn final_newline_opens_no_line_and_is_not_kept() {
    assert_eq!(split_lines("a\nb\n"), vec!["a".to_string(), "b".to_string()]);
    assert_eq!(keep_last_lines("a\nb\n", 1), "b");
    assert_eq!(keep_last_lines("a\nb\n", 2), "a\nb");
    assert_eq!(keep_last_lines("a\nb\n", 5), "a\nb");
}

#[test]
fn empty_lines_count() {
    assert_eq!(
        split_lines("a\n\nb\n\n"),
        vec!["a".to_string(), "".to_string(), "b".to_string(), "".to_string()]
    );
    assert_eq!(split_lines("\n"), vec!["".to_string()]);
    assert_eq!(split_lines("\n\n"), vec!["".to_string(), "".to_string()]);
    assert_eq!(keep_last_lines("a\n\nb\n\n", 2), "b\n");
    assert_eq!(keep_last_lines("a\n\n", 1), "");
    assert_eq!(keep_last_lines("x\n\n\n", 3), "x\n\n");
}

#[test]
fn join_last_joins_with_single_newlines() {
    let lines = vec!["one".to_string(), "two".to_string(), "three".to_string()];
    assert_eq!(join_last(&lines, 0), "");
    assert_eq!(join_last(&lines, 1), "three");
    assert_eq!(join_last(&lines, 2), "two\nthree");
    assert_eq!(join_last(&lines, 3), "one\ntwo\nthree");
    assert_eq!(join_last(&lines, usize::MAX), "one\ntwo\nthree");
    assert_eq!(join_last(&Vec::new(), 3), "");
}

#[test]
fn split_agrees_with_std_lines_without_carriage_returns() {
    let samples = ["", "a", "a\n", "\n", "a\n\nb", "a\nb\nc\n", "\n\n\n", "tab\tand space \n x"];
    for sample in samples {
        let ours = split_lines(sample);
        let theirs: Vec<String> = sample.lines().map(|line| line.to_string()).collect();
        assert_eq!(ours, theirs);
        for count in 0..5u32 {
            let start = theirs.len().saturating_sub(count as usize);
            assert_eq!(keep_last_lines(sample, count), theirs[start..].join("\n"));
        }
    }
}

#[test]
fn show_text_without_limit_only_sanitizes() {
    assert_eq!(show_text("a\r\nb\r\n", None), "a\nb\n");
    assert_eq!(show_text("\x1b[1mbold\x1b[0m\n", None), "bold\n");
}

#[test]
fn show_text_limits_after_sanitizing() {
    assert_eq!(show_text("\x1b[31ma\r\nb\r\nc\x1b[0m\r\n", Some(2)), "b\nc");
    assert_eq!(show_text("a\r\nb\r\n", Some(0)), "");
    assert_eq!(show_text("a\r\nb\r\n", Some(9)), "a\nb");
}

#[test]
fn show_output_decodes_bytes() {
    assert_eq!(show_output(b"hi\r\n", None), "hi\n");
    assert_eq!(show_output(b"", None), "");
    assert_eq!(show_output(b"", Some(3)), "");
    assert_eq!(show_output("gr\u{fc}n\n".as_bytes(), None), "gr\u{fc}n\n");
}

#[test]
fn show_output_replaces_invalid_bytes() {
    assert_eq!(show_output(&[0xff, b'a'], None), "\u{fffd}a");
    assert_eq!(show_output(&[b'o', b'k', 0xc3], None), "ok\u{fffd}");
    assert_eq!(show_output(&[0xe2, 0x9c, 0x93, b'\n', 0x80], Some(1)), "\u{fffd}");
}
