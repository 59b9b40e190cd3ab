use osmpbfreader::Tags;
use osmsvg::style::{resolve_stroke, stroke_from_value};

fn tags_of(pairs: &[(&str, &str)]) -> Tags {
    let mut tags = Tags::new();
    for (key, value) in pairs {
        tags.insert((*key).into(), (*value).into());
    }
    tags
}

#[test]
fn hex_colour_is_passed_through() {
    assert_eq!(resolve_stroke(&tags_of(&[("colour", "#ff0000")])), Some("#ff0000".to_string()));
}

#[test]
fn named_colour_is_ignored() {
    assert_eq!(resolve_stroke(&tags_of(&[("colour", "red")])), None);
}

#[test]
fn no_tags_no_stroke() {
    assert_eq!(resolve_stroke(&tags_of(&[])), None);
}

#[test]
fn only_the_colour_key_counts() {
    let tags = tags_of(&[("color", "#00ff00"), ("name", "#123456"), ("stroke", "#abcdef")]);
    assert_eq!(resolve_stroke(&tags), None);
}

#[test]
fn colour_is_found_among_other_tags() {
    let tags = tags_of(&[("zone", "1"), ("colour", "#0000ff"), ("name", "Blue line")]);
    assert_eq!(resolve_stroke(&tags), Some("#0000ff".to_string()));
}

#[test]
fn colour_token_is_not_validated() {
    assert_eq!(resolve_stroke(&tags_of(&[("colour", "#")])), Some("#".to_string()));
    assert_eq!(
        resolve_stroke(&tags_of(&[("colour", "#not a colour")])),
        Some("#not a colour".to_string())
    );
}

#[test]
fn empty_colour_is_ignored() {
    assert_eq!(resolve_stroke(&tags_of(&[("colour", "")])), None);
}

#[test]
fn hash_must_come_first() {
    assert_eq!(resolve_stroke(&tags_of(&[("colour", " #ff0000")])), None);
    assert_eq!(resolve_stroke(&tags_of(&[("colour", "ff#0000")])), None);
}

#[test]
fn later_colour_replaces_earlier() {
    let tags = tags_of(&[("colour", "red"), ("colour", "#010203")]);
    assert_eq!(resolve_stroke(&tags), Some("#010203".to_string()));
}

#[test]
fn stroke_from_looked_up_value() {
    assert_eq!(stroke_from_value(Some("#ff0000")), Some("#ff0000".to_string()));
    assert_eq!(stroke_from_value(Some("red")), None);
    assert_eq!(stroke_from_value(Some("")), None);
    assert_eq!(stroke_from_value(None), None);
}

#[test]
fn non_ascii_colour_values() {
    assert_eq!(stroke_from_value(Some("#é")), Some("#é".to_string()));
    assert_eq!(stroke_from_value(Some("é#")), None);
}
