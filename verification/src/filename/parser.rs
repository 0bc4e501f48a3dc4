//! Detection of date-like runs of digits in a file name.

use crate::date::{
    file_name_form, file_name_text, parse_with_format, parsed_as, written_for_names,
};
use crate::text::{
    all_digits, chars_of, contains, contains_spec, extend_chars, is_subsequence, occurs_in_order,
    only_digits, opt_view, string_of,
};
use crate::types::Timestamp;
use vstd::prelude::*;

verus! {

/// What a file name says about a date.
#[derive(Clone, Debug)]
pub enum DateDetection {
    /// No pattern found a date.
    NotFound,
    /// The name carries a date in the canonical form.
    FoundValidFormat(Timestamp),
    /// The name carries a date in another form; the digits that were read.
    FoundButBadFormat(String),
}

/// The mathematical content of a detection.
pub enum Detected {
    NotFound,
    Valid(Timestamp),
    Bad(Seq<char>),
}

impl View for DateDetection {
    type V = Detected;

    open spec fn view(&self) -> Detected {
        match *self {
            DateDetection::NotFound => Detected::NotFound,
            DateDetection::FoundValidFormat(stamp) => Detected::Valid(stamp),
            DateDetection::FoundButBadFormat(digits) => Detected::Bad(digits@),
        }
    }
}

/// What matching the regular expression `pattern` against `text` with the
/// `regex` crate yields: `None` where the expression does not compile or does
/// not match, else the capture groups of the leftmost match, the whole match
/// first, each group `None` where it took no part in the match.
pub uninterp spec fn regex_groups(pattern: Seq<char>, text: Seq<char>) -> Option<
    Seq<Option<Seq<char>>>,
>;

/// The views of a list of optional strings.
pub open spec fn group_views(groups: Seq<Option<String>>) -> Seq<Option<Seq<char>>> {
    groups.map_values(|g: Option<String>| opt_view(g))
}

/// Matches `pattern` against `text` and returns the capture groups.
///
/// Trusted: compiles the expression with `regex::Regex::new`, calls
/// `Regex::captures` and copies the text of each group of `Captures::iter`.
/// The contract only names that result.
#[verifier::external_body]
pub(crate) fn capture_groups(pattern: &str, text: &str) -> (r: Option<Vec<Option<String>>>)
    ensures
        match r {
            Some(groups) => regex_groups(pattern@, text@) == Some(group_views(groups@)),
            None => regex_groups(pattern@, text@) is None,
        },
{
    let expression = regex::Regex::new(pattern).ok()?;
    let found = expression.captures(text)?;
    Some(found.iter().map(|g| g.map(|m| m.as_str().to_string())).collect())
}

/// The groups that took part in a match, one after another.
pub open spec fn concat_present(groups: Seq<Option<Seq<char>>>) -> Seq<char>
    decreases groups.len(),
{
    if groups.len() == 0 {
        Seq::<char>::empty()
    } else {
        concat_present(groups.drop_last()) + match groups.last() {
            Some(text) => text,
            None => Seq::<char>::empty(),
        }
    }
}

/// The text that the groups of a match captured: all groups but the first,
/// which is the whole match.
pub open spec fn captured_text(groups: Seq<Option<Seq<char>>>) -> Seq<char> {
    if groups.len() == 0 {
        Seq::<char>::empty()
    } else {
        concat_present(groups.skip(1))
    }
}

/// Puts the captured groups of a match together.
pub fn join_groups(groups: &Vec<Option<String>>) -> (r: String)
    ensures
        r@ == captured_text(group_views(groups@)),
{
    if groups.len() == 0 {
        return String::new();
    }
    let ghost rest = group_views(groups@).skip(1);
    let mut out: Vec<char> = Vec::new();
    let mut i: usize = 1;
    assert(rest.take(0) =~= Seq::<Option<Seq<char>>>::empty());
    while i < groups.len()
        invariant
            1 <= i <= groups@.len(),
            rest == group_views(groups@).skip(1),
            out@ == concat_present(rest.take(i - 1)),
        decreases groups@.len() - i,
    {
        proof {
            let t = rest.take(i as int);
            assert(t.drop_last() =~= rest.take(i - 1));
            assert(t.last() == opt_view(groups@[i as int]));
        }
        match &groups[i] {
            Some(text) => {
                extend_chars(&mut out, &chars_of(text.as_str()));
            },
            None => {
                assert(out@ + Seq::<char>::empty() =~= out@);
            },
        }
        i += 1;
    }
    assert(rest.take(groups@.len() - 1) =~= rest);
    string_of(&out)
}

/// The pattern for dates in the canonical form for file names.
pub open spec fn canonical_format() -> Seq<char> {
    "%Y-%m-%d_%H%M%S"@
}

/// What a match means once its captured text has been parsed: nothing where
/// the text is no date under the format. Under the canonical format it is a
/// valid date where the name holds the text as one run and the text is the
/// date in its form for file names. Under another format it is a date in a
/// bad form where the text is made of digits that stand in the name in this
/// order. What the name does not carry in this way is not reported.
pub open spec fn classified(
    filename: Seq<char>,
    text: Seq<char>,
    parsed: Option<Timestamp>,
    canonical: bool,
) -> Option<Detected> {
    match parsed {
        Some(stamp) => if canonical {
            if text == file_name_form(stamp) && contains_spec(filename, text) {
                Some(Detected::Valid(stamp))
            } else {
                None
            }
        } else if text.len() > 0 && all_digits(text) && is_subsequence(text, filename) {
            Some(Detected::Bad(text))
        } else {
            None
        },
        None => None,
    }
}

/// The view of an optional detection.
pub open spec fn opt_detected(d: Option<DateDetection>) -> Option<Detected> {
    match d {
        Some(found) => Some(found@),
        None => None,
    }
}

/// Classifies a match from its captured text and the result of parsing it,
/// and holds what was read against the name.
pub fn classify(filename: &str, text: String, parsed: Option<Timestamp>, canonical: bool) -> (r:
    Option<DateDetection>)
    ensures
        opt_detected(r) == classified(filename@, text@, parsed, canonical),
        r matches Some(DateDetection::FoundValidFormat(stamp)) ==> written_for_names(Some(stamp)),
{
    match parsed {
        Some(stamp) => {
            let name = chars_of(filename);
            let read = chars_of(text.as_str());
            if canonical {
                let written = file_name_text(&stamp);
                if text == written && contains(&name, &read) {
                    Some(DateDetection::FoundValidFormat(stamp))
                } else {
                    None
                }
            } else if read.len() > 0 && only_digits(&read) && occurs_in_order(&read, &name) {
                Some(DateDetection::FoundButBadFormat(text))
            } else {
                None
            }
        },
        None => None,
    }
}

/// What one pair of expression and format finds in a file name.
pub open spec fn found_by(filename: Seq<char>, pattern: Seq<char>, format: Seq<char>) -> Option<
    Detected,
> {
    match regex_groups(pattern, filename) {
        Some(groups) => classified(
            filename,
            captured_text(groups),
            parsed_as(captured_text(groups), format),
            format == canonical_format(),
        ),
        None => None,
    }
}

/// What the first of `pairs` that finds anything finds in a file name.
pub open spec fn detected_from(filename: Seq<char>, pairs: Seq<(Seq<char>, Seq<char>)>) -> Detected
    decreases pairs.len(),
{
    if pairs.len() == 0 {
        Detected::NotFound
    } else {
        match found_by(filename, pairs[0].0, pairs[0].1) {
            Some(found) => found,
            None => detected_from(filename, pairs.drop_first()),
        }
    }
}

/// The expression for dates in the canonical form: one group around the
/// whole run, so that the captured text keeps its separators.
pub open spec fn canonical_expression() -> Seq<char> {
    "(\\d{4}-\\d{2}-\\d{2}_\\d{6})"@
}

/// The pairs of expression and format, in the order of their priority: the
/// canonical form first, then the compact form with or without separators,
/// then the forms of a date alone.
pub open spec fn date_patterns() -> Seq<(Seq<char>, Seq<char>)> {
    seq![
        (canonical_expression(), canonical_format()),
        ("(\\d{4})[-_]?(\\d{2})[-_]?(\\d{2})[-_]?(\\d{2})(\\d{2})(\\d{2})"@, "%Y%m%d%H%M%S"@),
        ("(\\d{4})[-_.]?(\\d{2})[-_.]?(\\d{2})"@, "%Y%m%d"@),
        ("(\\d{2})[-_.]?(\\d{2})[-_.]?(\\d{4})"@, "%d%m%Y"@),
        ("(\\d{4})[^\\d]?(\\d{2})[^\\d]?(\\d{2})"@, "%Y%m%d"@),
    ]
}

/// What a file name says about a date.
pub open spec fn detected(filename: Seq<char>) -> Detected {
    detected_from(filename, date_patterns())
}

/// The views of a list of pairs of expression and format.
pub open spec fn pair_views(pairs: Seq<(&str, &str)>) -> Seq<(Seq<char>, Seq<char>)> {
    pairs.map_values(|p: (&str, &str)| (p.0@, p.1@))
}

/// Tries one pair of expression and format on a file name.
pub fn try_pattern(filename: &str, pattern: &str, format: &str) -> (r: Option<DateDetection>)
    ensures
        opt_detected(r) == found_by(filename@, pattern@, format@),
        r matches Some(DateDetection::FoundValidFormat(stamp)) ==> written_for_names(Some(stamp)),
{
    match capture_groups(pattern, filename) {
        Some(groups) => {
            let text = join_groups(&groups);
            let parsed = parse_with_format(text.as_str(), format);
            let canonical = format.to_owned() == "%Y-%m-%d_%H%M%S".to_owned();
            classify(filename, text, parsed, canonical)
        },
        None => None,
    }
}

/// Whether pair `i` decides the classification `found` of a file name: it
/// finds `found`, and no pair before it finds anything.
pub open spec fn decided_by(filename: Seq<char>, i: int, found: Detected) -> bool {
    &&& 0 <= i < date_patterns().len()
    &&& found_by(filename, date_patterns()[i].0, date_patterns()[i].1) == Some(found)
    &&& forall|j: int|
        0 <= j < i ==> found_by(filename, date_patterns()[j].0, date_patterns()[j].1) is None
}

/// Whether the name carries what the classification reports: a valid date
/// stands in the name in its form for file names, and the digits of a date
/// in a bad form are digits that stand in the name in this order.
pub open spec fn carried_by(filename: Seq<char>, found: Detected) -> bool {
    match found {
        Detected::NotFound => true,
        Detected::Valid(stamp) => contains_spec(filename, file_name_form(stamp)),
        Detected::Bad(digits) => digits.len() > 0 && all_digits(digits) && is_subsequence(
            digits,
            filename,
        ),
    }
}

/// Classifies a file name: the pairs are tried in order, and the first whose
/// captured text parses under its format and is carried by the name decides.
/// A date in the canonical form is looked for first, so a name that carries
/// one is classified as valid with the timestamp it carries; a date and time
/// found by a later pair is reported as badly formed, with its digits.
pub fn detect_date_pattern_in_filename(filename: &str) -> (r: DateDetection)
    ensures
        r@ == detected(filename@),
        r@ is NotFound || exists|i: int| decided_by(filename@, i, r@),
        r matches DateDetection::FoundValidFormat(stamp) ==> decided_by(
            filename@,
            0,
            Detected::Valid(stamp),
        ) && written_for_names(Some(stamp)),
        carried_by(filename@, r@),
{
    let pairs: Vec<(&str, &str)> = vec![
        ("(\\d{4}-\\d{2}-\\d{2}_\\d{6})", "%Y-%m-%d_%H%M%S"),
        ("(\\d{4})[-_]?(\\d{2})[-_]?(\\d{2})[-_]?(\\d{2})(\\d{2})(\\d{2})", "%Y%m%d%H%M%S"),
        ("(\\d{4})[-_.]?(\\d{2})[-_.]?(\\d{2})", "%Y%m%d"),
        ("(\\d{2})[-_.]?(\\d{2})[-_.]?(\\d{4})", "%d%m%Y"),
        ("(\\d{4})[^\\d]?(\\d{2})[^\\d]?(\\d{2})", "%Y%m%d"),
    ];
    let ghost all = pair_views(pairs@);
    assert(all =~= date_patterns());
    assert(all.skip(0) =~= all);
    let mut i: usize = 0;
    while i < pairs.len()
        invariant
            i <= pairs@.len(),
            all == pair_views(pairs@),
            all == date_patterns(),
            detected_from(filename@, all) == detected_from(filename@, all.skip(i as int)),
            forall|j: int| 0 <= j < i ==> found_by(filename@, all[j].0, all[j].1) is None,
        decreases pairs@.len() - i,
    {
        proof {
            let rest = all.skip(i as int);
            assert(rest[0] == (pairs@[i as int].0@, pairs@[i as int].1@));
            assert(rest.drop_first() =~= all.skip(i + 1));
            assert(all[i as int] == (pairs@[i as int].0@, pairs@[i as int].1@));
        }
        match try_pattern(filename, pairs[i].0, pairs[i].1) {
            Some(found) => {
                proof {
                    assert(decided_by(filename@, i as int, found@));
                    if found@ is Valid {
                        lemma_valid_comes_first(filename@);
                    }
                }
                return found;
            },
            None => {},
        }
        i += 1;
    }
    assert(all.skip(i as int) =~= Seq::<(Seq<char>, Seq<char>)>::empty());
    DateDetection::NotFound
}

/// Whether none of `pairs` finds anything in a file name.
pub open spec fn none_finds(filename: Seq<char>, pairs: Seq<(Seq<char>, Seq<char>)>) -> bool {
    forall|i: int| 0 <= i < pairs.len() ==> found_by(filename, pairs[i].0, pairs[i].1) is None
}

/// A list of pairs finds nothing exactly when none of its pairs does.
proof fn lemma_not_found(filename: Seq<char>, pairs: Seq<(Seq<char>, Seq<char>)>)
    ensures
        detected_from(filename, pairs) is NotFound <==> none_finds(filename, pairs),
    decreases pairs.len(),
{
    if pairs.len() > 0 {
        let rest = pairs.drop_first();
        lemma_not_found(filename, rest);
        match found_by(filename, pairs[0].0, pairs[0].1) {
            Some(found) => {},
            None => {
                if none_finds(filename, rest) {
                    assert forall|i: int| 0 <= i < pairs.len() implies found_by(
                        filename,
                        pairs[i].0,
                        pairs[i].1,
                    ) is None by {
                        if i > 0 {
                            assert(pairs[i] == rest[i - 1]);
                        }
                    }
                }
                if none_finds(filename, pairs) {
                    assert forall|i: int| 0 <= i < rest.len() implies found_by(
                        filename,
                        rest[i].0,
                        rest[i].1,
                    ) is None by {
                        assert(rest[i] == pairs[i + 1]);
                    }
                }
            },
        }
    }
}

/// Only the canonical format gives a valid date.
proof fn lemma_valid_needs_canonical(filename: Seq<char>, pattern: Seq<char>, format: Seq<char>)
    ensures
        found_by(filename, pattern, format) matches Some(found) ==> (found is Valid <==> format
            == canonical_format()),
        found_by(filename, pattern, format) matches Some(found) ==> !(found is NotFound),
{
}

/// The four pairs after the first do not have the canonical format.
proof fn lemma_later_formats(i: int)
    requires
        1 <= i < date_patterns().len(),
    ensures
        date_patterns()[i].1 != canonical_format(),
        date_patterns()[0] == (canonical_expression(), canonical_format()),
{
    reveal_strlit("%Y-%m-%d_%H%M%S");
    reveal_strlit("%Y%m%d%H%M%S");
    reveal_strlit("%Y%m%d");
    reveal_strlit("%d%m%Y");
    assert("%Y-%m-%d_%H%M%S"@.len() == 15);
    assert("%Y%m%d%H%M%S"@.len() == 12);
    assert("%Y%m%d"@.len() == 6);
    assert("%d%m%Y"@.len() == 6);
}

/// A name is classified as carrying a valid date exactly when the canonical
/// pair, which is tried first, finds one; what the canonical pair finds is
/// the classification. A date in a bad form is reported only where the
/// canonical pair finds nothing.
pub proof fn lemma_valid_comes_first(filename: Seq<char>)
    ensures
        found_by(filename, canonical_expression(), canonical_format()) matches Some(found)
            ==> detected(filename) == found && found is Valid,
        detected(filename) is Valid ==> found_by(
            filename,
            canonical_expression(),
            canonical_format(),
        ) == Some(detected(filename)),
        detected(filename) is Bad ==> found_by(
            filename,
            canonical_expression(),
            canonical_format(),
        ) is None,
{
    let pairs = date_patterns();
    lemma_later_formats(1);
    lemma_valid_needs_canonical(filename, pairs[0].0, pairs[0].1);
    if found_by(filename, pairs[0].0, pairs[0].1) is None {
        lemma_never_valid(filename, pairs, 1);
        assert(pairs.skip(0) =~= pairs);
        assert(pairs.skip(0).drop_first() =~= pairs.skip(1));
    }
}

/// From the second pair on nothing is classified as valid.
proof fn lemma_never_valid(filename: Seq<char>, pairs: Seq<(Seq<char>, Seq<char>)>, from: int)
    requires
        pairs == date_patterns(),
        1 <= from <= pairs.len(),
    ensures
        !(detected_from(filename, pairs.skip(from)) is Valid),
    decreases pairs.len() - from,
{
    let rest = pairs.skip(from);
    if from < pairs.len() {
        lemma_later_formats(from);
        assert(rest[0] == pairs[from]);
        assert(rest.drop_first() =~= pairs.skip(from + 1));
        lemma_valid_needs_canonical(filename, pairs[from].0, pairs[from].1);
        lemma_never_valid(filename, pairs, from + 1);
    }
}

/// What a list of pairs finds in a name is carried by the name.
proof fn lemma_carried_from(filename: Seq<char>, pairs: Seq<(Seq<char>, Seq<char>)>)
    ensures
        carried_by(filename, detected_from(filename, pairs)),
    decreases pairs.len(),
{
    if pairs.len() > 0 {
        lemma_carried_from(filename, pairs.drop_first());
    }
}

/// The name carries what its classification reports: a valid date stands in
/// the name in its form for file names, and the digits of a date in a bad
/// form are digits of the name, in their order.
pub proof fn lemma_detection_is_carried(filename: Seq<char>)
    ensures
        carried_by(filename, detected(filename)),
{
    lemma_carried_from(filename, date_patterns());
}

/// A file name is classified in exactly one way, and as without a date
/// exactly when no pair of expression and format finds one.
pub proof fn lemma_one_classification(filename: Seq<char>)
    ensures
        detected(filename) is NotFound || detected(filename) is Valid || detected(filename) is Bad,
        !(detected(filename) is NotFound && detected(filename) is Valid),
        !(detected(filename) is NotFound && detected(filename) is Bad),
        !(detected(filename) is Valid && detected(filename) is Bad),
        detected(filename) is NotFound <==> none_finds(filename, date_patterns()),
{
    lemma_not_found(filename, date_patterns());
}

} // verus!
