//! Whether a file name already shows a given date.
//!
//! A loose test on the digits alone, which does not mind how the parts of the
//! date are separated and can be asked to respect the ends of runs of digits,
//! and a strict test that asks for the canonical form at the start of the name.

use crate::date::{
    day_text, file_name_form, file_name_text, formatted_as, written_as_day, written_for_names,
};
use crate::text::{
    all_digits, chars_of, contains, contains_spec, digits, digits_of, is_digit, starts_with,
    starts_with_spec,
};
use crate::types::Timestamp;
use vstd::prelude::*;

verus! {

/// Whether the digits of `filename`, taken in order, hold the digits of
/// `date_text` as one run.
pub open spec fn shows_digits_of(filename: Seq<char>, date_text: Seq<char>) -> bool {
    contains_spec(digits_of(filename), digits_of(date_text))
}

/// The loose test on a date that has already been written out.
pub fn name_shows_digits(filename: &str, date_text: &str) -> (r: bool)
    ensures
        r == shows_digits_of(filename@, date_text@),
{
    let name_digits = digits(&chars_of(filename));
    let date_digits = digits(&chars_of(date_text));
    contains(&name_digits, &date_digits)
}

/// Whether the digits of the calendar date of `date` occur in the digits of
/// `filename`. Without a date the answer is no.
pub fn is_date_in_filename(filename: &str, date: &Option<Timestamp>) -> (r: bool)
    ensures
        r == match *date {
            Some(stamp) => shows_digits_of(filename@, formatted_as(stamp, "%Y-%m-%d"@)),
            None => false,
        },
        written_as_day(*date),
{
    match date {
        Some(stamp) => {
            let date_text = day_text(stamp);
            name_shows_digits(filename, date_text.as_str())
        },
        None => false,
    }
}

/// The strict test on a date that has already been written out.
pub fn name_starts_with(filename: &str, prefix: &str) -> (r: bool)
    ensures
        r == starts_with_spec(filename@, prefix@),
{
    starts_with(&chars_of(filename), &chars_of(prefix))
}

/// Whether `filename` begins with `date_taken` in the canonical form for file
/// names. Without a date the answer is no.
pub fn filename_matches_exif_date(filename: &str, date_taken: &Option<Timestamp>) -> (r: bool)
    ensures
        r == match *date_taken {
            Some(stamp) => starts_with_spec(filename@, file_name_form(stamp)),
            None => false,
        },
        written_for_names(*date_taken),
{
    match date_taken {
        Some(stamp) => {
            let prefix = file_name_text(stamp);
            name_starts_with(filename, prefix.as_str())
        },
        None => false,
    }
}


/// How the loose test treats the digits around the date.
#[derive(Clone, Copy, Debug, PartialEq, Eq, Structural)]
pub enum Strictness {
    /// The digits of the date may stand anywhere among the digits of the name.
    Anywhere,
    /// The digits of the date must begin where a run of digits of the name
    /// begins, and end where one ends.
    Bounded,
}

/// Whether `s` has a digit at position `i`.
pub open spec fn digit_at(s: Seq<char>, i: int) -> bool {
    0 <= i < s.len() && is_digit(s[i])
}

/// Whether the part of `name` from `from` up to `to` begins and ends with a
/// digit, has no digit next to it on either side, and holds exactly the
/// digits `wanted`.
pub open spec fn shows_between(name: Seq<char>, wanted: Seq<char>, from: int, to: int) -> bool {
    &&& 0 <= from < to <= name.len()
    &&& is_digit(name[from])
    &&& is_digit(name[to - 1])
    &&& !digit_at(name, from - 1)
    &&& !digit_at(name, to)
    &&& digits_of(name.subrange(from, to)) == wanted
}

/// Whether some part of `name` that respects the ends of runs of digits
/// holds exactly the digits of `date_text`.
pub open spec fn shows_bounded_digits_of(name: Seq<char>, date_text: Seq<char>) -> bool {
    exists|from: int, to: int| shows_between(name, digits_of(date_text), from, to)
}

/// The loose test at the given strictness.
pub open spec fn shows_date(name: Seq<char>, date_text: Seq<char>, strictness: Strictness) -> bool {
    match strictness {
        Strictness::Anywhere => shows_digits_of(name, date_text),
        Strictness::Bounded => shows_bounded_digits_of(name, date_text),
    }
}

/// The digits of a text are digits.
proof fn lemma_digits_are_digits(s: Seq<char>)
    ensures
        all_digits(digits_of(s)),
        digits_of(s).len() <= s.len(),
    decreases s.len(),
{
    if s.len() > 0 {
        lemma_digits_are_digits(s.drop_last());
    }
}

/// The digits of a part of a text begin with the digits of a shorter part
/// that starts at the same place.
proof fn lemma_digits_grow(s: Seq<char>, from: int, mid: int, to: int)
    requires
        0 <= from <= mid <= to <= s.len(),
    ensures
        digits_of(s.subrange(from, mid)).len() <= digits_of(s.subrange(from, to)).len(),
        digits_of(s.subrange(from, to)).take(digits_of(s.subrange(from, mid)).len() as int)
            == digits_of(s.subrange(from, mid)),
    decreases to - mid,
{
    let short = digits_of(s.subrange(from, mid));
    if mid == to {
        assert(short.take(short.len() as int) =~= short);
    } else {
        lemma_digits_grow(s, from, mid, to - 1);
        let before = digits_of(s.subrange(from, to - 1));
        assert(s.subrange(from, to).drop_last() =~= s.subrange(from, to - 1));
        assert(digits_of(s.subrange(from, to)).take(short.len() as int) =~= before.take(
            short.len() as int,
        ));
    }
}

/// Whether a part of `name` that starts at `from` shows the digits `wanted`.
fn shows_from(name: &Vec<char>, wanted: &Vec<char>, from: usize) -> (r: bool)
    requires
        from < name@.len(),
        all_digits(wanted@),
    ensures
        r == exists|to: int| shows_between(name@, wanted@, from as int, to),
{
    let len: usize = name.len();
    let n: usize = wanted.len();
    let first = name[from];
    if !('0' <= first && first <= '9') {
        return false;
    }
    if from > 0 {
        let left = name[from - 1];
        if '0' <= left && left <= '9' {
            return false;
        }
    }
    let mut at: usize = from;
    let mut matched: usize = 0;
    assert(name@.subrange(from as int, from as int) =~= Seq::<char>::empty());
    assert(wanted@.take(0) =~= Seq::<char>::empty());
    while at < len
        invariant
            len == name@.len(),
            n == wanted@.len(),
            from <= at <= len,
            matched <= n,
            all_digits(wanted@),
            is_digit(name@[from as int]),
            !digit_at(name@, from - 1),
            digits_of(name@.subrange(from as int, at as int)) == wanted@.take(matched as int),
            forall|to: int| from < to <= at ==> !shows_between(name@, wanted@, from as int, to),
        decreases len - at,
    {
        let c = name[at];
        let ghost so_far = digits_of(name@.subrange(from as int, at as int));
        proof {
            assert(name@.subrange(from as int, at + 1).drop_last() =~= name@.subrange(
                from as int,
                at as int,
            ));
        }
        if '0' <= c && c <= '9' {
            let ghost next = digits_of(name@.subrange(from as int, at + 1));
            assert(next == so_far.push(c));
            if matched == n || c != wanted[matched] {
                proof {
                    assert forall|to: int| from < to <= len implies !shows_between(
                        name@,
                        wanted@,
                        from as int,
                        to,
                    ) by {
                        if to > at {
                            lemma_digits_grow(name@, from as int, at + 1, to);
                            let all = digits_of(name@.subrange(from as int, to));
                            if all == wanted@ {
                                assert(all.take(next.len() as int) == next);
                                assert(next[matched as int] == c);
                                assert(all.take(next.len() as int)[matched as int]
                                    == all[matched as int]);
                            }
                        }
                    }
                }
                return false;
            }
            matched += 1;
            at += 1;
            assert(next =~= wanted@.take(matched as int));
            if matched == n {
                let free: bool = if at < len {
                    let right = name[at];
                    !('0' <= right && right <= '9')
                } else {
                    true
                };
                if free {
                    assert(wanted@.take(n as int) =~= wanted@);
                    assert(shows_between(name@, wanted@, from as int, at as int));
                    return true;
                }
            } else {
                assert(wanted@.take(matched as int).len() != wanted@.len());
            }
        } else {
            at += 1;
        }
    }
    false
}

/// The loose test with respect for the ends of runs of digits, on a date
/// that has already been written out.
pub fn name_shows_bounded_digits(filename: &str, date_text: &str) -> (r: bool)
    ensures
        r == shows_bounded_digits_of(filename@, date_text@),
{
    let name = chars_of(filename);
    let wanted = digits(&chars_of(date_text));
    proof {
        lemma_digits_are_digits(date_text@);
    }
    let mut from: usize = 0;
    while from < name.len()
        invariant
            from <= name@.len(),
            name@ == filename@,
            wanted@ == digits_of(date_text@),
            all_digits(wanted@),
            forall|a: int, b: int| 0 <= a < from ==> !shows_between(name@, wanted@, a, b),
        decreases name@.len() - from,
    {
        if shows_from(&name, &wanted, from) {
            return true;
        }
        from += 1;
    }
    false
}

/// The loose test at the given strictness. Without a date the answer is no.
pub fn is_date_in_filename_with(
    filename: &str,
    date: &Option<Timestamp>,
    strictness: Strictness,
) -> (r: bool)
    ensures
        r == match *date {
            Some(stamp) => shows_date(filename@, formatted_as(stamp, "%Y-%m-%d"@), strictness),
            None => false,
        },
        written_as_day(*date),
{
    match date {
        Some(stamp) => {
            let date_text = day_text(stamp);
            match strictness {
                Strictness::Anywhere => name_shows_digits(filename, date_text.as_str()),
                Strictness::Bounded => name_shows_bounded_digits(filename, date_text.as_str()),
            }
        },
        None => false,
    }
}

} // verus!
