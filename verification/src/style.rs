//! The stroke colour that a feature's tags ask for.

use osmpbfreader::Tags;
use vstd::prelude::*;

verus! {

/// `osmpbfreader::Tags`, the tags of an OpenStreetMap object: a collection
/// of key/value pairs of text. Nothing of its inside is known here.
#[verifier::external_type_specification]
#[verifier::external_body]
pub struct ExTags(osmpbfreader::Tags);

/// What a `Tags` holds: for each key that a lookup finds, the value that
/// the lookup hands back.
pub uninterp spec fn tag_map(tags: Tags) -> Map<Seq<char>, Seq<char>>;

/// Looks `key` up with `flat_map::FlatMap::get`, which `Tags` dereferences
/// to. That method searches the entries for one whose key equals `key` and
/// hands back a reference to the value stored with it, or `None` when there
/// is no such entry. The contract says just that, and is trusted, not
/// proved.
#[verifier::external_body]
fn tags_get<'a>(tags: &'a Tags, key: &str) -> (value: Option<&'a str>)
    ensures
        match value {
            Some(v) => tag_map(*tags).contains_key(key@) && v@ == tag_map(*tags)[key@],
            None => !tag_map(*tags).contains_key(key@),
        },
{
    tags.get(key).map(|v| v.as_str())
}

/// Whether `value` is a raw colour token: a text that begins with `#`.
pub open spec fn is_colour_token(value: Seq<char>) -> bool {
    value.len() > 0 && value[0] == '#'
}

/// The stroke override that a looked-up `colour` tag yields: the value
/// itself, unvalidated, if it is a raw colour token, and nothing otherwise.
pub open spec fn stroke_of_value(value: Option<Seq<char>>) -> Option<Seq<char>> {
    match value {
        Some(v) if is_colour_token(v) => Some(v),
        _ => None,
    }
}

/// The stroke override that a tag mapping asks for. Only the key `colour`
/// is consulted.
pub open spec fn stroke_of_tags(tags: Map<Seq<char>, Seq<char>>) -> Option<Seq<char>> {
    if tags.contains_key("colour"@) {
        stroke_of_value(Some(tags["colour"@]))
    } else {
        None
    }
}

/// The text of an optional string.
pub open spec fn option_string_view(s: Option<String>) -> Option<Seq<char>> {
    match s {
        Some(s) => Some(s@),
        None => None,
    }
}

/// The text of an optional string slice.
pub open spec fn option_str_view(s: Option<&str>) -> Option<Seq<char>> {
    match s {
        Some(s) => Some(s@),
        None => None,
    }
}

/// Turns the value of a `colour` tag, if the tag is present, into a stroke
/// override.
pub fn stroke_from_value(value: Option<&str>) -> (stroke: Option<String>)
    ensures
        option_string_view(stroke) == stroke_of_value(option_str_view(value)),
{
    match value {
        Some(v) => {
            if !v.is_empty() && v.get_char(0) == '#' {
                Some(v.to_owned())
            } else {
                None
            }
        },
        None => None,
    }
}

/// The stroke override for a feature with the given tags: the value of its
/// `colour` tag if that value is a raw colour token, and none otherwise.
pub fn resolve_stroke(tags: &Tags) -> (stroke: Option<String>)
    ensures
        option_string_view(stroke) == stroke_of_tags(tag_map(*tags)),
{
    stroke_from_value(tags_get(tags, "colour"))
}

} // verus!
