use osmsvg::idlist::{parse_ids, MalformedId};
use std::collections::BTreeSet;

fn lines_of(lines: &[&str]) -> Vec<String> {
    lines.iter().map(|line| line.to_string()).collect()
}

fn set_of(ids: &[i64]) -> BTreeSet<i64> {
    ids.iter().copied().collect()
}

#[test]
fn one_identifier_per_line() {
    assert_eq!(parse_ids(&lines_of(&["12", "7", "300"])), Ok(set_of(&[7, 12, 300])));
}

#[test]
fn empty_list_is_empty_set() {
    assert_eq!(parse_ids(&lines_of(&[])), Ok(BTreeSet::new()));
}

#[test]
fn repeated_identifier_counts_once() {
    assert_eq!(parse_ids(&lines_of(&["5", "5", "05", "+5"])), Ok(set_of(&[5])));
}

#[test]
fn signs_and_leading_zeros_are_read() {
    assert_eq!(parse_ids(&lines_of(&["-3", "+4", "007", "-0"])), Ok(set_of(&[-3, 0, 4, 7])));
}

#[test]
fn long_run_of_leading_zeros_is_read() {
    let padded = "-000000000000000000000000000000000000042";
    assert_eq!(parse_ids(&lines_of(&[padded])), Ok(set_of(&[-42])));
}

#[test]
fn limits_of_the_identifier_type_are_read() {
    assert_eq!(
        parse_ids(&lines_of(&["9223372036854775807", "-9223372036854775808"])),
        Ok(set_of(&[i64::MAX, i64::MIN]))
    );
}

#[test]
fn number_out_of_range_is_malformed() {
    assert_eq!(parse_ids(&lines_of(&["1", "9223372036854775808"])), Err(MalformedId { line: 1 }));
    assert_eq!(parse_ids(&lines_of(&["-9223372036854775809"])), Err(MalformedId { line: 0 }));
}

#[test]
fn text_that_is_no_number_is_malformed() {
    let malformed =
        ["", "abc", "12a", " 12", "12 ", "1_000", "1.5", "+", "-", "--1", "+-1", "0x10", "١٢"];
    for text in malformed {
        let parsed = parse_ids(&lines_of(&["1", text, "2"]));
        assert_eq!(parsed, Err(MalformedId { line: 1 }), "{text:?}");
    }
}

#[test]
fn first_malformed_line_is_reported() {
    assert_eq!(parse_ids(&lines_of(&["1", "2", "x", "3", "y"])), Err(MalformedId { line: 2 }));
    assert_eq!(parse_ids(&lines_of(&["x", "y"])), Err(MalformedId { line: 0 }));
}
