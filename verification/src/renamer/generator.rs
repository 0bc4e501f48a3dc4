//! Names built from the capture date, the folder and the original name, kept
//! apart within a batch by a counter for each date.

use crate::assoc::TextMap;
use crate::date::{file_name_form, file_name_text, written_for_names};
use crate::text::{
    all_digits, chars_of, decimal, decimal_spec, digit_char, extend_chars, is_digit,
    lemma_decimal, lemma_successor, lemma_two_digit, next_decimal, slice_chars, string_of,
    two_digit_spec, underscored, underscored_spec, value_of,
};
use crate::types::{FileAnalysis, Timestamp};
use vstd::prelude::*;

verus! {

/// The date part of a name, which is also the key of the counter: the capture
/// date in the form for file names, or `unknown` where there is none.
pub open spec fn date_key(date: Option<Timestamp>) -> Seq<char> {
    match date {
        Some(stamp) => file_name_form(stamp),
        None => "unknown"@,
    }
}

/// What follows the date part on a use of a key that `earlier` uses went
/// before: nothing on the first use, and on use number N, from the second on,
/// an underscore and N in at least two digits.
pub open spec fn suffix_spec(earlier: nat) -> Seq<char> {
    if earlier == 0 {
        Seq::<char>::empty()
    } else {
        seq!['_'] + two_digit_spec(earlier + 1)
    }
}

/// The name made of a date part, a suffix, the folder and the original name,
/// spaces in the last two written as underscores.
pub open spec fn name_spec(
    date: Seq<char>,
    suffix: Seq<char>,
    folder: Seq<char>,
    original: Seq<char>,
) -> Seq<char> {
    date + suffix + seq!['_'] + underscored_spec(folder) + seq!['_'] + underscored_spec(original)
}

/// Whether `digits` write a count of at least one in decimal.
pub open spec fn written_count(digits: Seq<char>) -> bool {
    value_of(digits) >= 1 && digits == decimal_spec(value_of(digits))
}

/// For each date key, the number of names that a batch has taken under it.
/// A count is kept as it is written, in decimal, so that it has no limit.
#[derive(Clone, Debug)]
pub struct NameCounter {
    uses: TextMap<Vec<char>>,
}

impl NameCounter {
    /// Every count is written in decimal and is at least one. Every counter
    /// that this module hands out is well formed.
    pub closed spec fn wf(&self) -> bool {
        &&& self.uses.wf()
        &&& forall|key: Seq<char>|
            self.uses@.dom().contains(key) ==> written_count(#[trigger] self.uses@[key]@)
    }

    /// The number of names taken so far under `key`.
    pub closed spec fn uses_of(&self, key: Seq<char>) -> nat {
        if self.uses@.dom().contains(key) {
            value_of(self.uses@[key]@)
        } else {
            0
        }
    }

    /// The counter of a new batch: no name is taken.
    pub fn new() -> (r: NameCounter)
        ensures
            r.wf(),
            forall|key: Seq<char>| r.uses_of(key) == 0,
    {
        NameCounter { uses: TextMap::new() }
    }

    /// The number of names taken so far under `key`, in decimal.
    pub fn count_text(&self, key: &str) -> (r: String)
        requires
            self.wf(),
        ensures
            r@ == decimal_spec(self.uses_of(key@)),
    {
        match self.uses.get(key) {
            Some(digits) => string_of(digits),
            None => {
                let r = string_of(&vec!['0']);
                assert(r@ =~= decimal_spec(0));
                r
            },
        }
    }

    /// Takes one more name under `key` and returns, in decimal, how many are
    /// taken under it now.
    pub fn take(&mut self, key: &str) -> (r: Vec<char>)
        requires
            old(self).wf(),
        ensures
            final(self).wf(),
            final(self).uses_of(key@) == old(self).uses_of(key@) + 1,
            r@ == decimal_spec(final(self).uses_of(key@)),
            forall|other: Seq<char>|
                other != key@ ==> final(self).uses_of(other) == old(self).uses_of(other),
    {
        let ghost earlier = self.uses_of(key@);
        let ghost before = self.uses@;
        let next: Vec<char> = match self.uses.get(key) {
            Some(digits) => {
                let copy = slice_chars(digits, 0, digits.len());
                proof {
                    assert(written_count(before[key@]@));
                    assert(copy@ =~= digits@);
                    assert(copy@ == decimal_spec(earlier));
                    lemma_decimal(earlier);
                    lemma_successor(earlier);
                }
                next_decimal(copy)
            },
            None => {
                let first: Vec<char> = vec!['1'];
                assert(first@ =~= decimal_spec(1));
                first
            },
        };
        assert(next@ == decimal_spec(earlier + 1));
        proof {
            lemma_decimal(earlier + 1);
        }
        let kept = slice_chars(&next, 0, next.len());
        assert(kept@ =~= next@);
        self.uses.insert(key.to_owned(), kept);
        proof {
            assert(self.uses@ == before.insert(key@, kept));
            assert(written_count(kept@));
            assert forall|other: Seq<char>| self.uses@.dom().contains(other) implies written_count(
                #[trigger] self.uses@[other]@,
            ) by {
                if other != key@ {
                    assert(before.dom().contains(other));
                    assert(self.uses@[other] == before[other]);
                }
            }
        }
        next
    }
}

/// Builds the date part of a name.
pub fn make_date_key(date: &Option<Timestamp>) -> (r: String)
    ensures
        r@ == date_key(*date),
        written_for_names(*date),
{
    match date {
        Some(stamp) => file_name_text(stamp),
        None => "unknown".to_string(),
    }
}

/// Builds a name from its date part, the number of earlier uses of that date
/// part, the folder and the original name.
pub fn compose_name(date: &str, earlier: usize, folder: &str, original: &str) -> (r: String)
    ensures
        r@ == name_spec(date@, suffix_spec(earlier as nat), folder@, original@),
{
    let written = decimal(earlier as u64);
    proof {
        lemma_decimal(earlier as nat);
        lemma_successor(earlier as nat);
        lemma_suffix_of_count(earlier as nat);
    }
    let count = next_decimal(written);
    let suffix = make_suffix(&count);
    compose_with_suffix(date, &suffix, folder, original)
}

/// The suffix that goes with a count, given as it is written: nothing for
/// the count one, else an underscore and the count in at least two digits.
pub open spec fn suffix_of_count(digits: Seq<char>) -> Seq<char> {
    if digits == seq!['1'] {
        Seq::<char>::empty()
    } else if digits.len() == 1 {
        seq!['_', '0'] + digits
    } else {
        seq!['_'] + digits
    }
}

/// The suffix of a count is the suffix of the use that it counts.
pub proof fn lemma_suffix_of_count(earlier: nat)
    ensures
        suffix_of_count(decimal_spec(earlier + 1)) == suffix_spec(earlier),
{
    let n = earlier + 1;
    let digits = decimal_spec(n);
    lemma_decimal(n);
    if earlier == 0 {
        assert(digits =~= seq!['1']);
    } else {
        assert(value_of(seq!['1']) == 1) by {
            assert(seq!['1'].drop_last() =~= Seq::<char>::empty());
            assert(value_of(seq!['1'].drop_last()) == 0);
        }
        if n < 10 {
            assert(digits =~= seq![digit_char(n)]);
            assert(seq!['_', '0'] + digits =~= seq!['_'] + seq!['0', digit_char(n)]);
        } else {
            lemma_decimal(n / 10);
            assert(digits.len() >= 2);
        }
    }
}

/// Builds the suffix that goes with a count.
pub fn make_suffix(count: &Vec<char>) -> (r: Vec<char>)
    ensures
        r@ == suffix_of_count(count@),
{
    let mut suffix: Vec<char> = Vec::new();
    if count.len() == 1 && count[0] == '1' {
        assert(count@ =~= seq!['1']);
        return suffix;
    }
    suffix.push('_');
    if count.len() == 1 {
        suffix.push('0');
    }
    extend_chars(&mut suffix, count);
    proof {
        if count@ == seq!['1'] {
            assert(count@[0] == '1');
        }
        assert(suffix@ =~= suffix_of_count(count@));
    }
    suffix
}

/// Builds a name from its date part, its suffix, the folder and the original
/// name.
pub fn compose_with_suffix(date: &str, suffix: &Vec<char>, folder: &str, original: &str) -> (r:
    String)
    ensures
        r@ == name_spec(date@, suffix@, folder@, original@),
{
    let mut name = chars_of(date);
    extend_chars(&mut name, suffix);
    name.push('_');
    extend_chars(&mut name, &underscored(&chars_of(folder)));
    name.push('_');
    extend_chars(&mut name, &underscored(&chars_of(original)));
    let r = string_of(&name);
    assert(r@ =~= name_spec(date@, suffix@, folder@, original@));
    r
}

/// Proposes the name of a file and takes it in the counter of the batch.
///
/// The name is the date part, the suffix for the number of earlier uses of
/// that date part in the batch, the folder and the original name. The date
/// part of a capture date of the years 0 to 9999 is `YYYY-MM-DD_HHMMSS`.
pub fn generate_filename(analysis: &FileAnalysis, name_counter: &mut NameCounter) -> (r: String)
    requires
        old(name_counter).wf(),
    ensures
        final(name_counter).wf(),
        r@ == name_spec(
            date_key(analysis.exif.date_taken),
            suffix_spec(old(name_counter).uses_of(date_key(analysis.exif.date_taken))),
            analysis.folder_name@,
            analysis.original_name@,
        ),
        final(name_counter).uses_of(date_key(analysis.exif.date_taken)) == old(
            name_counter,
        ).uses_of(date_key(analysis.exif.date_taken)) + 1,
        forall|other: Seq<char>|
            other != date_key(analysis.exif.date_taken) ==> final(name_counter).uses_of(other)
                == old(name_counter).uses_of(other),
        written_for_names(analysis.exif.date_taken),
{
    let date = make_date_key(&analysis.exif.date_taken);
    let count = name_counter.take(date.as_str());
    proof {
        lemma_suffix_of_count(old(name_counter).uses_of(date@));
    }
    let suffix = make_suffix(&count);
    compose_with_suffix(
        date.as_str(),
        &suffix,
        analysis.folder_name.as_str(),
        analysis.original_name.as_str(),
    )
}

/// Two uses of one date key get different suffixes.
pub proof fn lemma_suffix_injective(first: nat, second: nat)
    requires
        first != second,
    ensures
        suffix_spec(first) != suffix_spec(second),
{
    lemma_two_digit(first + 1);
    lemma_two_digit(second + 1);
    if first != 0 && second != 0 {
        let a = seq!['_'] + two_digit_spec(first + 1);
        let b = seq!['_'] + two_digit_spec(second + 1);
        if a == b {
            assert(a.skip(1) =~= two_digit_spec(first + 1));
            assert(b.skip(1) =~= two_digit_spec(second + 1));
        }
    } else if first != 0 {
        assert((seq!['_'] + two_digit_spec(first + 1)).len() > 0);
    } else {
        assert((seq!['_'] + two_digit_spec(second + 1)).len() > 0);
    }
}

/// What follows the date part and the suffix in a name.
pub open spec fn name_tail(folder: Seq<char>, original: Seq<char>) -> Seq<char> {
    seq!['_'] + underscored_spec(folder) + seq!['_'] + underscored_spec(original)
}

/// Whether the folder and name of a first use read like the suffix, folder
/// and name of use number `earlier + 1`: the one case in which two uses of a
/// date key meet in one name.
pub open spec fn reads_like_later_use(
    first_folder: Seq<char>,
    first_original: Seq<char>,
    earlier: nat,
    folder: Seq<char>,
    original: Seq<char>,
) -> bool {
    earlier > 0 && name_tail(first_folder, first_original) == suffix_spec(earlier) + name_tail(
        folder,
        original,
    )
}

/// Two texts that each are a run of digits, an underscore and a rest are
/// equal only where the runs of digits are.
proof fn lemma_digit_runs(a: Seq<char>, rest_a: Seq<char>, b: Seq<char>, rest_b: Seq<char>)
    requires
        all_digits(a),
        all_digits(b),
        a + seq!['_'] + rest_a == b + seq!['_'] + rest_b,
    ensures
        a == b,
{
    let x = a + seq!['_'] + rest_a;
    let y = b + seq!['_'] + rest_b;
    if a.len() < b.len() {
        assert(x[a.len() as int] == '_');
        assert(y[a.len() as int] == b[a.len() as int]);
        assert(is_digit(b[a.len() as int]));
    } else if b.len() < a.len() {
        assert(y[b.len() as int] == '_');
        assert(x[b.len() as int] == a[b.len() as int]);
        assert(is_digit(a[b.len() as int]));
    } else {
        assert forall|i: int| 0 <= i < a.len() implies a[i] == b[i] by {
            assert(x[i] == a[i]);
            assert(y[i] == b[i]);
        }
        assert(a =~= b);
    }
}

/// Two uses of one date key get different names, unless the folder and name
/// of a first use read like a later use.
pub proof fn lemma_names_differ(
    date: Seq<char>,
    first: nat,
    first_folder: Seq<char>,
    first_original: Seq<char>,
    second: nat,
    second_folder: Seq<char>,
    second_original: Seq<char>,
)
    requires
        first != second,
        !(first == 0 && reads_like_later_use(
            first_folder,
            first_original,
            second,
            second_folder,
            second_original,
        )),
        !(second == 0 && reads_like_later_use(
            second_folder,
            second_original,
            first,
            first_folder,
            first_original,
        )),
    ensures
        name_spec(date, suffix_spec(first), first_folder, first_original) != name_spec(
            date,
            suffix_spec(second),
            second_folder,
            second_original,
        ),
{
    let tail_a = name_tail(first_folder, first_original);
    let tail_b = name_tail(second_folder, second_original);
    let rest_a = suffix_spec(first) + tail_a;
    let rest_b = suffix_spec(second) + tail_b;
    lemma_name_parts(date, suffix_spec(first), first_folder, first_original);
    lemma_name_parts(date, suffix_spec(second), second_folder, second_original);
    if date + rest_a == date + rest_b {
        lemma_same_start(date, rest_a, rest_b);
        if first == 0 {
            assert(rest_a =~= tail_a);
        } else if second == 0 {
            assert(rest_b =~= tail_b);
        } else {
            lemma_later_uses_differ(
                first,
                first_folder,
                first_original,
                second,
                second_folder,
                second_original,
            );
        }
    }
}

/// A name is its date part followed by its suffix and its tail.
proof fn lemma_name_parts(
    date: Seq<char>,
    suffix: Seq<char>,
    folder: Seq<char>,
    original: Seq<char>,
)
    ensures
        name_spec(date, suffix, folder, original) == date + (suffix + name_tail(folder, original)),
{
    assert(name_spec(date, suffix, folder, original) =~= date + (suffix + name_tail(
        folder,
        original,
    )));
}

/// Two texts with the same start are equal only where what follows is equal.
proof fn lemma_same_start(start: Seq<char>, x: Seq<char>, y: Seq<char>)
    requires
        start + x == start + y,
    ensures
        x == y,
{
    assert((start + x).skip(start.len() as int) =~= x);
    assert((start + y).skip(start.len() as int) =~= y);
}

/// What follows the date part differs between two later uses of a date key.
proof fn lemma_later_uses_differ(
    first: nat,
    first_folder: Seq<char>,
    first_original: Seq<char>,
    second: nat,
    second_folder: Seq<char>,
    second_original: Seq<char>,
)
    requires
        first != second,
        first > 0,
        second > 0,
    ensures
        suffix_spec(first) + name_tail(first_folder, first_original) != suffix_spec(second)
            + name_tail(second_folder, second_original),
{
    let rest_a = suffix_spec(first) + name_tail(first_folder, first_original);
    let rest_b = suffix_spec(second) + name_tail(second_folder, second_original);
    let da = two_digit_spec(first + 1);
    let db = two_digit_spec(second + 1);
    lemma_two_digit(first + 1);
    lemma_two_digit(second + 1);
    let after_a = underscored_spec(first_folder) + seq!['_'] + underscored_spec(first_original);
    let after_b = underscored_spec(second_folder) + seq!['_'] + underscored_spec(second_original);
    if rest_a == rest_b {
        assert(rest_a.skip(1) =~= da + seq!['_'] + after_a);
        assert(rest_b.skip(1) =~= db + seq!['_'] + after_b);
        lemma_digit_runs(da, after_a, db, after_b);
    }
}

/// Whether `text` begins with a decimal digit.
pub open spec fn begins_with_digit(text: Seq<char>) -> bool {
    text.len() > 0 && is_digit(text[0])
}

/// Two uses of one date key get different names where the folder of a first
/// use does not begin with a digit, whatever the original names are. So two
/// names proposed one after the other for one date differ where the folder
/// of the first does not begin with a digit.
pub proof fn lemma_names_differ_for_plain_folders(
    date: Seq<char>,
    first: nat,
    first_folder: Seq<char>,
    first_original: Seq<char>,
    second: nat,
    second_folder: Seq<char>,
    second_original: Seq<char>,
)
    requires
        first != second,
        first == 0 ==> !begins_with_digit(first_folder),
        second == 0 ==> !begins_with_digit(second_folder),
    ensures
        name_spec(date, suffix_spec(first), first_folder, first_original) != name_spec(
            date,
            suffix_spec(second),
            second_folder,
            second_original,
        ),
{
    if first == 0 {
        lemma_plain_folder_is_no_later_use(
            first_folder,
            first_original,
            second,
            second_folder,
            second_original,
        );
    }
    if second == 0 {
        lemma_plain_folder_is_no_later_use(
            second_folder,
            second_original,
            first,
            first_folder,
            first_original,
        );
    }
    lemma_names_differ(
        date,
        first,
        first_folder,
        first_original,
        second,
        second_folder,
        second_original,
    );
}

/// A first use whose folder does not begin with a digit does not read like a
/// later use: after the underscore a later use goes on with a digit.
proof fn lemma_plain_folder_is_no_later_use(
    first_folder: Seq<char>,
    first_original: Seq<char>,
    earlier: nat,
    folder: Seq<char>,
    original: Seq<char>,
)
    requires
        !begins_with_digit(first_folder),
    ensures
        !reads_like_later_use(first_folder, first_original, earlier, folder, original),
{
    if earlier > 0 {
        lemma_two_digit(earlier + 1);
        let digits = two_digit_spec(earlier + 1);
        let mine = name_tail(first_folder, first_original);
        let other = suffix_spec(earlier) + name_tail(folder, original);
        assert(other[0] == '_');
        assert(other[1] == digits[0]);
        assert(is_digit(digits[0]));
        assert(mine[0] == '_');
        let shown = underscored_spec(first_folder);
        if first_folder.len() > 0 {
            assert(mine[1] == shown[0]);
            assert(shown[0] == if first_folder[0] == ' ' {
                '_'
            } else {
                first_folder[0]
            });
        } else {
            assert(shown.len() == 0);
            assert(mine[1] == '_');
        }
    }
}

} // verus!
