//! Normalisation of raw date strings into canonical timestamps, and the
//! canonical textual forms of a timestamp.

use crate::text::{
    chars_of, clean, clean_spec, digit_char, is_digit, string_of, two_digit_spec,
};
use crate::types::Timestamp;
use chrono::{Datelike, NaiveDate, NaiveDateTime, Timelike};
use vstd::prelude::*;

verus! {

/// What `chrono::NaiveDateTime::parse_from_str` makes of `input` under the
/// strftime pattern `format`: the timestamp, or `None` where it reports an error.
pub uninterp spec fn parsed_as(input: Seq<char>, format: Seq<char>) -> Option<Timestamp>;

/// What `chrono::NaiveDateTime::format` writes for `stamp` under the strftime
/// pattern `format`.
pub uninterp spec fn formatted_as(stamp: Timestamp, format: Seq<char>) -> Seq<char>;

/// Whether `c` is one of the pattern letters for year, month, day, hour,
/// minute and second.
pub open spec fn is_field_letter(c: char) -> bool {
    c == 'Y' || c == 'm' || c == 'd' || c == 'H' || c == 'M' || c == 'S'
}

/// Whether every `%` of `format` starts one of `%Y %m %d %H %M %S %.f`.
pub open spec fn plain_format(format: Seq<char>) -> bool {
    forall|i: int|
        0 <= i < format.len() && #[trigger] format[i] == '%' ==> {
            ||| i + 1 < format.len() && is_field_letter(format[i + 1])
            ||| i + 2 < format.len() && format[i + 1] == '.' && format[i + 2] == 'f'
        }
}

/// Whether `c` is one of the characters that part the fields of a written
/// date: colon, dash, slash, dot and underscore.
pub open spec fn is_separator(c: char) -> bool {
    c == ':' || c == '-' || c == '/' || c == '.' || c == '_'
}

/// Whether `gap` can stand between two fields of a date or of a time: it is
/// empty or one separator.
pub open spec fn is_field_gap(gap: Seq<char>) -> bool {
    gap.len() == 0 || (gap.len() == 1 && is_separator(gap[0]))
}

/// Whether `gap` can stand between the date and the time: it is empty, one
/// separator, one space or the letter `T`.
pub open spec fn is_date_time_gap(gap: Seq<char>) -> bool {
    gap.len() == 0 || (gap.len() == 1 && (is_separator(gap[0]) || gap[0] == ' ' || gap[0] == 'T'))
}

/// The pattern of year, month, day, hour, minute and second in this order,
/// with `date_gap` between the fields of the date, `between` between date and
/// time, and `time_gap` between the fields of the time.
pub open spec fn year_first_pattern(
    date_gap: Seq<char>,
    between: Seq<char>,
    time_gap: Seq<char>,
) -> Seq<char> {
    seq!['%', 'Y'] + date_gap + seq!['%', 'm'] + date_gap + seq!['%', 'd'] + between + seq![
        '%',
        'H',
    ] + time_gap + seq!['%', 'M'] + time_gap + seq!['%', 'S']
}

/// A timestamp written year first: the year in four digits and every other
/// field in two, padded with zeros, with the same gaps as in the pattern.
pub open spec fn year_first_writing(
    stamp: Timestamp,
    date_gap: Seq<char>,
    between: Seq<char>,
    time_gap: Seq<char>,
) -> Seq<char> {
    four_digit_spec(stamp.spec_year() as nat) + date_gap + two_digit_spec(
        stamp.spec_month() as nat,
    ) + date_gap + two_digit_spec(stamp.spec_day() as nat) + between + two_digit_spec(
        stamp.spec_hour() as nat,
    ) + time_gap + two_digit_spec(stamp.spec_minute() as nat) + time_gap + two_digit_spec(
        stamp.spec_second() as nat,
    )
}

/// Whether a timestamp names a date of the years 0 to 9999 and a time of
/// whole seconds that is no leap second.
pub open spec fn is_plain_instant(stamp: Timestamp) -> bool {
    stamp.is_valid() && in_plain_years(stamp) && stamp.spec_nanosecond() == 0
}

/// Whether `input` is the plain instant `stamp` written year first, and
/// `format` is the pattern with the same gaps.
pub open spec fn written_under(
    input: Seq<char>,
    format: Seq<char>,
    stamp: Timestamp,
    date_gap: Seq<char>,
    between: Seq<char>,
    time_gap: Seq<char>,
) -> bool {
    &&& is_field_gap(date_gap)
    &&& is_date_time_gap(between)
    &&& is_field_gap(time_gap)
    &&& is_plain_instant(stamp)
    &&& format == year_first_pattern(date_gap, between, time_gap)
    &&& input == year_first_writing(stamp, date_gap, between, time_gap)
}

/// The number of digits that the field of a pattern letter takes at most:
/// four for the year, two for the others.
pub open spec fn field_width(letter: char) -> int {
    if letter == 'Y' {
        4
    } else if letter == 'm' || letter == 'd' || letter == 'H' || letter == 'M' || letter == 'S' {
        2
    } else {
        0
    }
}

/// Whether `input` cannot be read under `format` because of what follows its
/// first field: the pattern begins with a field and a separator, the input
/// begins with as many digits as the field takes, and what follows them is
/// not that separator.
pub open spec fn fails_at_first_gap(input: Seq<char>, format: Seq<char>) -> bool {
    &&& format.len() >= 3
    &&& format[0] == '%'
    &&& field_width(format[1]) > 0
    &&& is_separator(format[2])
    &&& input.len() > field_width(format[1])
    &&& forall|j: int| 0 <= j < field_width(format[1]) ==> is_digit(#[trigger] input[j])
    &&& input[field_width(format[1])] != format[2]
}

/// What is known of the parser beyond its name, at one input and pattern: a
/// plain instant written year first is read back under the pattern with its
/// gaps, and an input that fails at the first gap is not read.
pub open spec fn parse_laws_hold(input: Seq<char>, format: Seq<char>) -> bool {
    &&& forall|stamp: Timestamp, a: Seq<char>, b: Seq<char>, c: Seq<char>|
        #[trigger] written_under(input, format, stamp, a, b, c) ==> parsed_as(input, format)
            == Some(stamp)
    &&& fails_at_first_gap(input, format) ==> parsed_as(input, format) is None
}

/// Parses `input` under one strftime pattern.
///
/// Trusted: calls `chrono::NaiveDateTime::parse_from_str` and copies the parts
/// of the value it returns, which always name a date and a time. The contract
/// names that result and states two things that chrono's parser shows. A
/// numeric field takes the digits that stand there, up to its width, and a
/// literal of the pattern must stand in the input as it is; so a plain instant
/// written in fields of full width with the gaps of the pattern is read back
/// as that instant. And where the first field is followed by another
/// character than the separator that the pattern has there, nothing is read.
#[verifier::external_body]
pub(crate) fn parse_with_format(input: &str, format: &str) -> (r: Option<Timestamp>)
    ensures
        r == parsed_as(input@, format@),
        forall|stamp: Timestamp, a: Seq<char>, b: Seq<char>, c: Seq<char>|
            #[trigger] written_under(input@, format@, stamp, a, b, c) ==> r == Some(stamp),
        fails_at_first_gap(input@, format@) ==> r is None,
{
    let dt = NaiveDateTime::parse_from_str(input, format).ok()?;
    Some(
        Timestamp {
            year: dt.year(),
            month: dt.month(),
            day: dt.day(),
            hour: dt.hour(),
            minute: dt.minute(),
            second: dt.second(),
            nanosecond: dt.nanosecond(),
        },
    )
}

/// `n` in four decimal digits, padded with zeros.
pub open spec fn four_digit_spec(n: nat) -> Seq<char>
    recommends
        n < 10000,
{
    seq![
        digit_char(n / 1000),
        digit_char((n / 100) % 10),
        digit_char((n / 10) % 10),
        digit_char(n % 10),
    ]
}

/// Whether the year of a timestamp is written without a sign: the years from
/// 0 to 9999.
pub open spec fn in_plain_years(stamp: Timestamp) -> bool {
    0 <= stamp.spec_year() <= 9999
}

/// The second of a timestamp as it is written: 60 for a leap second.
pub open spec fn shown_second(stamp: Timestamp) -> nat {
    (stamp.spec_second() + stamp.spec_nanosecond() / 1_000_000_000) as nat
}

/// The date of a timestamp in four, two and two digits with dashes between.
pub open spec fn date_writing(stamp: Timestamp) -> Seq<char> {
    four_digit_spec(stamp.spec_year() as nat) + seq!['-'] + two_digit_spec(
        stamp.spec_month() as nat,
    ) + seq!['-'] + two_digit_spec(stamp.spec_day() as nat)
}

/// A timestamp of the plain years in the form for file names:
/// `YYYY-MM-DD_HHMMSS`.
pub open spec fn file_name_writing(stamp: Timestamp) -> Seq<char> {
    date_writing(stamp) + seq!['_'] + two_digit_spec(stamp.spec_hour() as nat) + two_digit_spec(
        stamp.spec_minute() as nat,
    ) + two_digit_spec(shown_second(stamp))
}

/// A timestamp of the plain years in the form for display:
/// `YYYY-MM-DD HH:MM:SS`.
pub open spec fn display_writing(stamp: Timestamp) -> Seq<char> {
    date_writing(stamp) + seq![' '] + two_digit_spec(stamp.spec_hour() as nat) + seq![':']
        + two_digit_spec(stamp.spec_minute() as nat) + seq![':'] + two_digit_spec(
        shown_second(stamp),
    )
}

/// Writes `stamp` under one strftime pattern.
///
/// Trusted: rebuilds the `chrono::NaiveDateTime` with the same parts, which
/// chrono accepts because a timestamp always names a date and a time, and
/// calls its `format`. The pattern is limited to fields that a date with a time
/// of day can always supply. The contract names the result and, for the two
/// canonical patterns, the pattern of the date alone and the years that
/// chrono writes without a sign, says
/// what chrono's formatter writes for each field: the year in four digits,
/// every other field in two, all padded with zeros, the second of a leap
/// second as 60, and the characters between the fields as they stand.
#[verifier::external_body]
pub(crate) fn format_with(stamp: &Timestamp, format: &str) -> (r: String)
    requires
        plain_format(format@),
    ensures
        r@ == formatted_as(*stamp, format@),
        format@ == "%Y-%m-%d_%H%M%S"@ && in_plain_years(*stamp) ==> r@ == file_name_writing(*stamp),
        format@ == "%Y-%m-%d %H:%M:%S"@ && in_plain_years(*stamp) ==> r@ == display_writing(*stamp),
        format@ == "%Y-%m-%d"@ && in_plain_years(*stamp) ==> r@ == date_writing(*stamp),
{
    let date = NaiveDate::from_ymd_opt(stamp.year, stamp.month, stamp.day).unwrap();
    let dt = date.and_hms_nano_opt(stamp.hour, stamp.minute, stamp.second, stamp.nanosecond);
    dt.unwrap().format(format).to_string()
}

/// The first timestamp that one of `formats`, tried in order, yields for `input`.
pub open spec fn first_parse_spec(input: Seq<char>, formats: Seq<Seq<char>>) -> Option<Timestamp>
    decreases formats.len(),
{
    if formats.len() == 0 {
        None
    } else {
        match parsed_as(input, formats[0]) {
            Some(t) => Some(t),
            None => first_parse_spec(input, formats.drop_first()),
        }
    }
}

/// The views of a list of patterns.
pub open spec fn pattern_views(formats: Seq<&str>) -> Seq<Seq<char>> {
    formats.map_values(|f: &str| f@)
}

/// Whether none of the first `count` patterns reads `input`.
pub open spec fn none_reads(input: Seq<char>, formats: Seq<Seq<char>>, count: int) -> bool {
    forall|j: int| 0 <= j < count ==> parsed_as(input, #[trigger] formats[j]) is None
}

/// Whether what is known of the parser holds at every pattern that is tried
/// on `input`: at each one before which no pattern reads the input.
pub open spec fn tried_lawfully(input: Seq<char>, formats: Seq<Seq<char>>) -> bool {
    forall|i: int|
        0 <= i < formats.len() && none_reads(input, formats, i) ==> parse_laws_hold(
            input,
            #[trigger] formats[i],
        )
}

/// Tries `formats` in order on `input` and returns the first success.
pub fn first_parse(input: &str, formats: &Vec<&str>) -> (r: Option<Timestamp>)
    ensures
        r == first_parse_spec(input@, pattern_views(formats@)),
        tried_lawfully(input@, pattern_views(formats@)),
{
    let mut i: usize = 0;
    let ghost all = pattern_views(formats@);
    assert(all.skip(0) =~= all);
    while i < formats.len()
        invariant
            i <= formats@.len(),
            all == pattern_views(formats@),
            first_parse_spec(input@, all) == first_parse_spec(input@, all.skip(i as int)),
            none_reads(input@, all, i as int),
            forall|j: int| 0 <= j < i ==> parse_laws_hold(input@, #[trigger] all[j]),
        decreases formats@.len() - i,
    {
        let ghost rest = all.skip(i as int);
        proof {
            assert(rest[0] == formats@[i as int]@);
            assert(rest.drop_first() =~= all.skip(i + 1));
        }
        let parsed = parse_with_format(input, formats[i]);
        proof {
            assert(all[i as int] == formats@[i as int]@);
            assert(parse_laws_hold(input@, all[i as int]));
        }
        match parsed {
            Some(t) => {
                proof {
                    assert forall|k: int|
                        0 <= k < all.len() && none_reads(input@, all, k) implies parse_laws_hold(
                        input@,
                        #[trigger] all[k],
                    ) by {
                        if k > i {
                            assert(parsed_as(input@, all[i as int]) is None);
                        }
                    }
                }
                return Some(t);
            },
            None => {},
        }
        i += 1;
    }
    assert(all.skip(i as int) =~= Seq::<Seq<char>>::empty());
    None
}

/// The patterns of the normaliser, in the order in which they are tried.
pub open spec fn known_formats() -> Seq<Seq<char>> {
    seq![
        "%Y:%m:%d %H:%M:%S"@,
        "%Y-%m-%d %H:%M:%S"@,
        "%Y/%m/%d %H:%M:%S"@,
        "%d-%m-%Y %H:%M:%S"@,
        "%Y.%m.%d %H:%M:%S"@,
        "%Y%m%d%H%M%S"@,
        "%Y%m%d_%H%M%S"@,
        "%Y_%m_%d_%H%M%S"@,
        "%Y.%m.%d_%H-%M-%S"@,
        "%Y:%m:%dT%H:%M:%S"@,
    ]
}

/// The canonical timestamp of a raw date string: the result of the first
/// known pattern that accepts it, or `None` when none does.
pub open spec fn normalized(input: Seq<char>) -> Option<Timestamp> {
    first_parse_spec(input, known_formats())
}

/// The styles of writing a date and a time year first that differ only in
/// what parts the fields.
#[derive(Clone, Copy, Debug, PartialEq, Eq, Structural)]
pub enum DateStyle {
    /// `YYYY:MM:DD HH:MM:SS`
    Colons,
    /// `YYYY-MM-DD HH:MM:SS`
    Dashes,
    /// `YYYY/MM/DD HH:MM:SS`
    Slashes,
    /// `YYYY.MM.DD HH:MM:SS`
    Dots,
    /// `YYYYMMDDHHMMSS`
    Compact,
}

/// What parts the fields of the date in a style.
pub open spec fn style_gap(style: DateStyle) -> Seq<char> {
    match style {
        DateStyle::Colons => seq![':'],
        DateStyle::Dashes => seq!['-'],
        DateStyle::Slashes => seq!['/'],
        DateStyle::Dots => seq!['.'],
        DateStyle::Compact => Seq::<char>::empty(),
    }
}

/// A timestamp written in a style: the fields of the time are parted by
/// colons and the time from the date by a space, but for the compact style,
/// which has digits only.
pub open spec fn styled(stamp: Timestamp, style: DateStyle) -> Seq<char> {
    match style {
        DateStyle::Compact => year_first_writing(
            stamp,
            Seq::<char>::empty(),
            Seq::<char>::empty(),
            Seq::<char>::empty(),
        ),
        _ => year_first_writing(stamp, style_gap(style), seq![' '], seq![':']),
    }
}

/// Whether `input`, where it is a plain instant written in one of the
/// styles, is normalised to that instant, whatever the style.
pub open spec fn reads_styles(input: Seq<char>) -> bool {
    forall|stamp: Timestamp, style: DateStyle|
        is_plain_instant(stamp) && input == #[trigger] styled(stamp, style) ==> normalized(input)
            == Some(stamp)
}

/// The place of the pattern of a style among the known patterns.
spec fn style_index(style: DateStyle) -> int {
    match style {
        DateStyle::Colons => 0,
        DateStyle::Dashes => 1,
        DateStyle::Slashes => 2,
        DateStyle::Dots => 4,
        DateStyle::Compact => 5,
    }
}

/// A number below 100 in two digits.
proof fn lemma_two_digits(n: nat)
    requires
        n < 100,
    ensures
        two_digit_spec(n) == seq![digit_char(n / 10), digit_char(n % 10)],
        is_digit(digit_char(n / 10)),
        is_digit(digit_char(n % 10)),
{
    reveal_with_fuel(crate::text::decimal_spec, 3);
    if n >= 10 {
        assert(two_digit_spec(n) =~= seq![digit_char(n / 10), digit_char(n % 10)]);
    } else {
        assert(two_digit_spec(n) =~= seq![digit_char(n / 10), digit_char(n % 10)]);
    }
}

/// How a plain instant written year first begins: with four digits, then the
/// gap of the date or, where there is none, one more digit.
proof fn lemma_writing_begins(stamp: Timestamp, a: Seq<char>, b: Seq<char>, c: Seq<char>)
    requires
        is_plain_instant(stamp),
        is_field_gap(a),
    ensures
        year_first_writing(stamp, a, b, c).len() > 4,
        forall|j: int| 0 <= j < 4 ==> is_digit(#[trigger] year_first_writing(stamp, a, b, c)[j]),
        a.len() == 1 ==> year_first_writing(stamp, a, b, c)[4] == a[0],
        a.len() == 0 ==> is_digit(year_first_writing(stamp, a, b, c)[4]),
{
    let year = stamp.spec_year() as nat;
    let head = four_digit_spec(year);
    let month = two_digit_spec(stamp.spec_month() as nat);
    lemma_two_digits(stamp.spec_month() as nat);
    let w = year_first_writing(stamp, a, b, c);
    assert(head.len() == 4);
    assert(is_digit(head[0]) && is_digit(head[1]) && is_digit(head[2]) && is_digit(head[3]));
    assert(w.subrange(0, 4) =~= head);
    assert forall|j: int| 0 <= j < 4 implies is_digit(#[trigger] w[j]) by {
        assert(w[j] == w.subrange(0, 4)[j]);
    }
    if a.len() == 1 {
        assert(w[4] == (head + a)[4]);
    } else {
        assert(w[4] == (head + a + month)[4]);
        assert((head + a + month)[4] == month[0]);
    }
}

/// Where no pattern before place `at` reads the input and the pattern at that
/// place reads it, that reading is the result.
proof fn lemma_first_parse_at(input: Seq<char>, formats: Seq<Seq<char>>, at: int)
    requires
        0 <= at < formats.len(),
        none_reads(input, formats, at),
        parsed_as(input, formats[at]) is Some,
    ensures
        first_parse_spec(input, formats) == parsed_as(input, formats[at]),
    decreases at,
{
    if at > 0 {
        let rest = formats.drop_first();
        assert(parsed_as(input, formats[0]) is None);
        assert forall|j: int| 0 <= j < at - 1 implies parsed_as(input, #[trigger] rest[j]) is None by {
            assert(rest[j] == formats[j + 1]);
        }
        assert(rest[at - 1] == formats[at]);
        lemma_first_parse_at(input, rest, at - 1);
    }
}

/// A plain instant written in one of the styles is normalised to itself.
proof fn lemma_style_is_read(input: Seq<char>, stamp: Timestamp, style: DateStyle)
    requires
        tried_lawfully(input, known_formats()),
        is_plain_instant(stamp),
        input == styled(stamp, style),
    ensures
        normalized(input) == Some(stamp),
{
    let formats = known_formats();
    let at = style_index(style);
    let none = Seq::<char>::empty();
    let (a, b, c) = match style {
        DateStyle::Compact => (none, none, none),
        _ => (style_gap(style), seq![' '], seq![':']),
    };
    reveal_strlit("%Y:%m:%d %H:%M:%S");
    reveal_strlit("%Y-%m-%d %H:%M:%S");
    reveal_strlit("%Y/%m/%d %H:%M:%S");
    reveal_strlit("%d-%m-%Y %H:%M:%S");
    reveal_strlit("%Y.%m.%d %H:%M:%S");
    reveal_strlit("%Y%m%d%H%M%S");
    lemma_writing_begins(stamp, a, b, c);
    assert(input == year_first_writing(stamp, a, b, c));
    assert(formats[at] =~= year_first_pattern(a, b, c));
    assert forall|j: int| 0 <= j < at implies fails_at_first_gap(input, #[trigger] formats[j]) by {
        if j == 3 {
            assert(formats[j][1] == 'd');
            assert(formats[j][2] == '-');
            assert(is_digit(input[2]));
        } else {
            assert(formats[j][1] == 'Y');
        }
    }
    lemma_none_read_before(input, formats, at);
    assert(parse_laws_hold(input, formats[at]));
    assert(written_under(input, formats[at], stamp, a, b, c));
    lemma_first_parse_at(input, formats, at);
}

/// Where the input fails at the first gap of every pattern before place
/// `upto`, none of them reads it.
proof fn lemma_none_read_before(input: Seq<char>, formats: Seq<Seq<char>>, upto: int)
    requires
        0 <= upto <= formats.len(),
        tried_lawfully(input, formats),
        forall|j: int| 0 <= j < upto ==> fails_at_first_gap(input, #[trigger] formats[j]),
    ensures
        none_reads(input, formats, upto),
    decreases upto,
{
    if upto > 0 {
        lemma_none_read_before(input, formats, upto - 1);
        assert(parse_laws_hold(input, formats[upto - 1]));
        assert(fails_at_first_gap(input, formats[upto - 1]));
    }
}

/// Normalises a raw date string. A date of the years 0 to 9999 with a time
/// of whole seconds gives the same instant whether its fields are parted by
/// colons, dashes, slashes or dots, or not parted at all.
pub fn parse_date_flexible(input: &str) -> (r: Option<Timestamp>)
    ensures
        r == normalized(input@),
        reads_styles(input@),
{
    let formats: Vec<&str> = vec![
        "%Y:%m:%d %H:%M:%S",
        "%Y-%m-%d %H:%M:%S",
        "%Y/%m/%d %H:%M:%S",
        "%d-%m-%Y %H:%M:%S",
        "%Y.%m.%d %H:%M:%S",
        "%Y%m%d%H%M%S",
        "%Y%m%d_%H%M%S",
        "%Y_%m_%d_%H%M%S",
        "%Y.%m.%d_%H-%M-%S",
        "%Y:%m:%dT%H:%M:%S",
    ];
    assert(pattern_views(formats@) =~= known_formats());
    let r = first_parse(input, &formats);
    proof {
        assert forall|stamp: Timestamp, style: DateStyle|
            is_plain_instant(stamp) && input@ == #[trigger] styled(stamp, style) implies normalized(
            input@,
        ) == Some(stamp) by {
            lemma_style_is_read(input@, stamp, style);
        }
    }
    r
}

/// Normalises a date string as it is stored in a tag: surrounding white space
/// and trailing NUL characters do not count.
pub fn parse_exif_date_str(value: &str) -> (r: Option<Timestamp>)
    ensures
        r == normalized(clean_spec(value@)),
        reads_styles(clean_spec(value@)),
{
    let trimmed = string_of(&clean(&chars_of(value)));
    parse_date_flexible(trimmed.as_str())
}


/// The canonical form of a timestamp for display: date, space, time.
pub open spec fn display_form(stamp: Timestamp) -> Seq<char> {
    formatted_as(stamp, "%Y-%m-%d %H:%M:%S"@)
}

/// The canonical form of a timestamp inside file names: date, underscore,
/// and the time without separators.
pub open spec fn file_name_form(stamp: Timestamp) -> Seq<char> {
    formatted_as(stamp, "%Y-%m-%d_%H%M%S"@)
}

/// Whether the form for file names of a date, where there is one and it is
/// of the plain years, is `YYYY-MM-DD_HHMMSS`.
pub open spec fn written_for_names(date: Option<Timestamp>) -> bool {
    date matches Some(stamp) ==> (in_plain_years(stamp) ==> file_name_form(stamp)
        == file_name_writing(stamp))
}

/// Whether the calendar date of a date, where there is one and it is of the
/// plain years, is written `YYYY-MM-DD`.
pub open spec fn written_as_day(date: Option<Timestamp>) -> bool {
    date matches Some(stamp) ==> (in_plain_years(stamp) ==> formatted_as(stamp, "%Y-%m-%d"@)
        == date_writing(stamp))
}

/// Writes the calendar date of a timestamp: `YYYY-MM-DD` for the years from
/// 0 to 9999.
pub fn day_text(stamp: &Timestamp) -> (r: String)
    ensures
        r@ == formatted_as(*stamp, "%Y-%m-%d"@),
        in_plain_years(*stamp) ==> r@ == date_writing(*stamp),
        written_as_day(Some(*stamp)),
{
    proof {
        reveal_strlit("%Y-%m-%d");
    }
    format_with(stamp, "%Y-%m-%d")
}

/// Whether the form for display of a date, where there is one and it is of
/// the plain years, is `YYYY-MM-DD HH:MM:SS`.
pub open spec fn written_for_display(date: Option<Timestamp>) -> bool {
    date matches Some(stamp) ==> (in_plain_years(stamp) ==> display_form(stamp) == display_writing(
        stamp,
    ))
}

/// Writes a timestamp in its form for display: `YYYY-MM-DD HH:MM:SS` for the
/// years from 0 to 9999.
pub fn display_text(stamp: &Timestamp) -> (r: String)
    ensures
        r@ == display_form(*stamp),
        in_plain_years(*stamp) ==> r@ == display_writing(*stamp),
        written_for_display(Some(*stamp)),
{
    proof {
        reveal_strlit("%Y-%m-%d %H:%M:%S");
    }
    format_with(stamp, "%Y-%m-%d %H:%M:%S")
}

/// Writes a timestamp in its form for file names: `YYYY-MM-DD_HHMMSS` for the
/// years from 0 to 9999.
pub fn file_name_text(stamp: &Timestamp) -> (r: String)
    ensures
        r@ == file_name_form(*stamp),
        in_plain_years(*stamp) ==> r@ == file_name_writing(*stamp),
        written_for_names(Some(*stamp)),
{
    proof {
        reveal_strlit("%Y-%m-%d_%H%M%S");
    }
    format_with(stamp, "%Y-%m-%d_%H%M%S")
}

} // verus!
