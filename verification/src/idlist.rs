//! Lists of requested identifiers, one per line of text.

use std::collections::BTreeSet;
use vstd::prelude::*;

verus! {

/// `core::num::ParseIntError`, what `str::parse` gives back when a text is
/// not a number of the type asked for. Nothing of its inside is known here.
#[verifier::external_type_specification]
#[verifier::external_body]
pub struct ExParseIntError(core::num::ParseIntError);

/// Whether `c` is one of the ten ASCII digits.
pub open spec fn is_digit(c: char) -> bool {
    '0' <= c <= '9'
}

/// The number that a run of ASCII digits writes in base ten.
pub open spec fn digits_value(digits: Seq<char>) -> int
    decreases digits.len(),
{
    if digits.len() == 0 {
        0
    } else {
        digits_value(digits.drop_last()) * 10 + (digits.last() as int - '0' as int)
    }
}

/// The integer that `text` writes in base ten: an optional `+` or `-`, then
/// one digit or more, and nothing else. Any other text writes none.
pub open spec fn decimal(text: Seq<char>) -> Option<int> {
    let signed = text.len() > 0 && (text[0] == '+' || text[0] == '-');
    let digits = if signed {
        text.skip(1)
    } else {
        text
    };
    if digits.len() > 0 && (forall|i: int|
        0 <= i < digits.len() ==> is_digit(#[trigger] digits[i])) {
        if signed && text[0] == '-' {
            Some(-digits_value(digits))
        } else {
            Some(digits_value(digits))
        }
    } else {
        None
    }
}

/// The identifier that `text` writes, if it writes an integer that fits.
pub open spec fn written_id(text: Seq<char>) -> Option<i64> {
    match decimal(text) {
        Some(value) if i64::MIN <= value <= i64::MAX => Some(value as i64),
        _ => None,
    }
}

/// Reads `text` with `str::parse::<i64>`. The standard library documents
/// that it accepts an optional `+` or `-` sign followed by decimal digits
/// only, at least one, and fails on an empty text, on any other character,
/// leading or trailing white space included, and on a number outside the
/// range of `i64`. The contract says just that, and is trusted, not proved.
#[verifier::external_body]
fn parse_id(text: &str) -> (parsed: Result<i64, core::num::ParseIntError>)
    ensures
        match parsed {
            Ok(id) => written_id(text@) == Some(id),
            Err(_) => written_id(text@) is None,
        },
{
    text.parse::<i64>()
}

/// A line of an identifier list that does not write an identifier.
#[derive(Clone, Copy, Debug, PartialEq, Eq, Structural)]
pub struct MalformedId {
    /// The position of the line in the list, counted from zero.
    pub line: usize,
}

/// The position of the first of `lines` that writes no identifier.
pub open spec fn first_malformed(lines: Seq<String>) -> Option<int> {
    if exists|i: int| is_first_malformed(lines, i) {
        Some(choose|i: int| is_first_malformed(lines, i))
    } else {
        None
    }
}

/// Line `i` writes no identifier, and every line before it writes one.
pub open spec fn is_first_malformed(lines: Seq<String>, i: int) -> bool {
    &&& 0 <= i < lines.len()
    &&& written_id(lines[i]@) is None
    &&& forall|j: int| 0 <= j < i ==> written_id(#[trigger] lines[j]@) is Some
}

/// The identifiers that the lines write.
pub open spec fn listed_ids(lines: Seq<String>) -> Set<i64> {
    Set::new(
        |id: i64|
            exists|i: int| 0 <= i < lines.len() && written_id(#[trigger] lines[i]@) == Some(id),
    )
}

/// Adds `id` to `ids`.
fn put_id(ids: &mut BTreeSet<i64>, id: i64)
    ensures
        final(ids)@ == old(ids)@.insert(id),
{
    broadcast use vstd::std_specs::btree::group_btree_axioms;
    broadcast use vstd::laws_cmp::group_laws_cmp;

    ids.insert(id);
}

/// Reads a list of identifiers, one per line. If every line writes an
/// identifier, the result is the set of them. Otherwise it is the first
/// line that writes none.
pub fn parse_ids(lines: &Vec<String>) -> (parsed: Result<BTreeSet<i64>, MalformedId>)
    ensures
        match parsed {
            Ok(ids) => first_malformed(lines@) is None && ids@ == listed_ids(lines@),
            Err(malformed) => first_malformed(lines@) == Some(malformed.line as int),
        },
{
    let mut ids: BTreeSet<i64> = BTreeSet::new();
    let mut i: usize = 0;
    while i < lines.len()
        invariant
            i <= lines.len(),
            forall|j: int| 0 <= j < i ==> written_id(#[trigger] lines@[j]@) is Some,
            ids@ == listed_ids(lines@.take(i as int)),
        decreases lines.len() - i,
    {
        match parse_id(lines[i].as_str()) {
            Ok(id) => {
                put_id(&mut ids, id);
                proof {
                    let before = lines@.take(i as int);
                    let now = lines@.take(i + 1);
                    assert forall|other: i64| listed_ids(now).contains(other) <==> listed_ids(
                        before,
                    ).insert(id).contains(other) by {
                        if listed_ids(now).contains(other) {
                            let k = choose|k: int|
                                0 <= k < now.len() && written_id(#[trigger] now[k]@) == Some(
                                    other,
                                );
                            if k < i {
                                assert(written_id(before[k]@) == Some(other));
                            }
                        }
                        if listed_ids(before).contains(other) {
                            let k = choose|k: int|
                                0 <= k < before.len() && written_id(#[trigger] before[k]@)
                                    == Some(other);
                            assert(written_id(now[k]@) == Some(other));
                        }
                        if other == id {
                            assert(written_id(now[i as int]@) == Some(other));
                        }
                    }
                    assert(listed_ids(now) =~= listed_ids(before).insert(id));
                }
            },
            Err(_) => {
                proof {
                    lemma_first_malformed(lines@, i as int);
                }
                return Err(MalformedId { line: i });
            },
        }
        i += 1;
    }
    proof {
        assert(lines@.take(i as int) == lines@);
        assert forall|k: int| !is_first_malformed(lines@, k) by {}
    }
    Ok(ids)
}

/// There is at most one first malformed line.
pub proof fn lemma_first_malformed(lines: Seq<String>, i: int)
    requires
        is_first_malformed(lines, i),
    ensures
        first_malformed(lines) == Some(i),
{
    let chosen = choose|k: int| is_first_malformed(lines, k);
    if chosen < i {
        assert(written_id(lines[chosen]@) is Some);
    }
    if i < chosen {
        assert(written_id(lines[i]@) is Some);
    }
}

} // verus!
