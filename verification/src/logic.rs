//! The listing of a folder for review: for each file a preview of its new
//! name, its tags as they are shown, and whether its name shows its date.

use crate::assoc::TextMap;
use crate::date::{
    display_form, display_text, file_name_form, file_name_text, format_with, formatted_as,
    normalized, written_for_names,
};
use crate::exif::reader::{tag_name, tag_name_of};
use crate::text::{
    capped, capped_spec, chars_of, contains, contains_spec, extend_chars, opt_view, slice_chars,
    string_of, views,
};
use crate::types::{TagId, Timestamp};
use std::path::PathBuf;
use vstd::prelude::*;

pub use crate::date::parse_date_flexible;

verus! {

/// One file of a listing.
#[derive(Clone, Debug)]
pub struct ImageFile {
    pub path: PathBuf,
    pub file_name: String,
    pub date_taken: Option<String>,
    pub selected: bool,
    pub preview_name: Option<String>,
    pub preview_valid: bool,
    pub date_in_name: bool,
    pub exif_date_matches_name: bool,
    pub exif_data: TextMap<String>,
}

/// A tag of a file and the text that shows its value.
#[derive(Clone, Debug)]
pub struct DisplayedTag {
    pub tag: TagId,
    pub text: String,
}

/// A file that is to be listed, with what was read from it.
#[derive(Clone, Debug)]
pub struct ListedFile {
    pub path: PathBuf,
    pub file_name: String,
    pub tags: Vec<DisplayedTag>,
}

/// What `str::to_lowercase` returns for `text`.
pub uninterp spec fn lowercase_of(text: Seq<char>) -> Seq<char>;

/// The lowercase form of `text`.
///
/// Trusted: wraps `str::to_lowercase`. The contract only names its result.
#[verifier::external_body]
fn lowercase(text: &str) -> (r: String)
    ensures
        r@ == lowercase_of(text@),
{
    text.to_lowercase()
}

/// The name under which a tag is shown.
pub fn get_readable_tag_name(tag: TagId) -> (r: String)
    ensures
        r@ == tag_name_of(tag),
{
    tag_name(&tag)
}

/// `text` on one line: line feeds and carriage returns become spaces.
pub open spec fn one_line(text: Seq<char>) -> Seq<char> {
    text.map_values(
        |c: char|
            if c == '\n' || c == '\r' {
                ' '
            } else {
                c
            },
    )
}

/// The number of characters of a shown value before it is cut.
pub const SHOWN_VALUE_LIMIT: usize = 100;

/// The value of a tag as the listing shows it: on one line, cut to the limit.
pub open spec fn shown_value(text: Seq<char>) -> Seq<char> {
    capped_spec(one_line(text), SHOWN_VALUE_LIMIT as nat)
}

/// Prepares the text of a tag for the listing.
pub fn make_shown_value(text: &str) -> (r: String)
    ensures
        r@ == shown_value(text@),
{
    let raw = chars_of(text);
    let mut line: Vec<char> = Vec::new();
    let mut i: usize = 0;
    while i < raw.len()
        invariant
            i <= raw@.len(),
            line@.len() == i,
            forall|j: int| 0 <= j < i ==> line@[j] == one_line(raw@)[j],
        decreases raw@.len() - i,
    {
        let c = raw[i];
        line.push(if c == '\n' || c == '\r' { ' ' } else { c });
        i += 1;
    }
    assert(line@ =~= one_line(raw@));
    string_of(&capped(line, SHOWN_VALUE_LIMIT))
}

/// The tags of a file by their names, as the listing shows them; of two tags
/// with one name the later one stays.
pub open spec fn described(tags: Seq<DisplayedTag>) -> Map<Seq<char>, Seq<char>>
    decreases tags.len(),
{
    if tags.len() == 0 {
        Map::empty()
    } else {
        described(tags.drop_last()).insert(
            tag_name_of(tags.last().tag),
            shown_value(tags.last().text@),
        )
    }
}

/// The views of the values of a map of strings.
pub open spec fn text_values(map: Map<Seq<char>, String>) -> Map<Seq<char>, Seq<char>> {
    map.map_values(|s: String| s@)
}

/// Collects the tags of a file for the listing.
pub fn extract_exif_data(tags: &Vec<DisplayedTag>) -> (r: TextMap<String>)
    ensures
        r.wf(),
        text_values(r@) == described(tags@),
{
    let mut map: TextMap<String> = TextMap::new();
    let mut i: usize = 0;
    assert(tags@.take(0) =~= Seq::<DisplayedTag>::empty());
    assert(text_values(map@) =~= Map::<Seq<char>, Seq<char>>::empty());
    while i < tags.len()
        invariant
            i <= tags@.len(),
            map.wf(),
            text_values(map@) == described(tags@.take(i as int)),
        decreases tags@.len() - i,
    {
        proof {
            let t = tags@.take(i + 1);
            assert(t.drop_last() =~= tags@.take(i as int));
            assert(t.last() == tags@[i as int]);
        }
        let name = get_readable_tag_name(tags[i].tag);
        let shown = make_shown_value(tags[i].text.as_str());
        let ghost before = map@;
        map.insert(name, shown);
        assert(text_values(map@) =~= text_values(before).insert(name@, shown@));
        i += 1;
    }
    assert(tags@.take(tags@.len() as int) =~= tags@);
    map
}

/// The position of the dot that parts the extension of a file name from its
/// stem, if there is one: the last dot, unless it is the first character.
pub open spec fn extension_dot(name: Seq<char>) -> Option<int> {
    if exists|i: int| 0 < i < name.len() && name[i] == '.' {
        Some(
            choose|i: int|
                0 < i < name.len() && name[i] == '.' && forall|j: int|
                    i < j < name.len() ==> name[j] != '.',
        )
    } else {
        None
    }
}

/// The stem of a file name: the name up to the dot of its extension, or all
/// of it where it has no extension.
pub open spec fn stem_spec(name: Seq<char>) -> Seq<char> {
    match extension_dot(name) {
        Some(dot) => name.take(dot),
        None => name,
    }
}

/// The extension of a file name without its dot; empty where it has none.
pub open spec fn extension_spec(name: Seq<char>) -> Seq<char> {
    match extension_dot(name) {
        Some(dot) => name.skip(dot + 1),
        None => Seq::<char>::empty(),
    }
}

/// Finds the dot of the extension of a file name.
pub fn find_extension_dot(name: &Vec<char>) -> (r: Option<usize>)
    ensures
        r is Some <==> extension_dot(name@) is Some,
        r matches Some(dot) ==> extension_dot(name@) == Some(dot as int) && 0 < dot < name@.len(),
{
    let mut i: usize = name.len();
    while i > 1
        invariant
            i <= name@.len(),
            forall|j: int| i <= j < name@.len() ==> name@[j] != '.',
        decreases i,
    {
        i -= 1;
        if name[i] == '.' {
            proof {
                let found = choose|k: int|
                    0 < k < name@.len() && name@[k] == '.' && forall|j: int|
                        k < j < name@.len() ==> name@[j] != '.';
                assert(found == i) by {
                    if found < i {
                        assert(name@[i as int] != '.');
                    }
                }
            }
            return Some(i);
        }
    }
    None
}

/// The date part of a preview: the date in the form for file names, or
/// `unknown_date` where there is none.
pub open spec fn preview_date(date: Option<Timestamp>) -> Seq<char> {
    match date {
        Some(stamp) => file_name_form(stamp),
        None => "unknown_date"@,
    }
}

/// The preview of a name: date part, underscore, stem, dot, extension.
pub open spec fn preview_spec(name: Seq<char>, date: Option<Timestamp>) -> Seq<char> {
    preview_date(date) + seq!['_'] + stem_spec(name) + seq!['.'] + extension_spec(name)
}

/// The timestamp of an optional date text.
pub open spec fn date_of_text(date_text: Option<Seq<char>>) -> Option<Timestamp> {
    match date_text {
        Some(text) => normalized(text),
        None => None,
    }
}

/// Builds the preview of a name from the date that has been read for it.
pub fn compose_preview_name(original_name: &str, date: &Option<Timestamp>) -> (r: String)
    ensures
        r@ == preview_spec(original_name@, *date),
        written_for_names(*date),
{
    let name = chars_of(original_name);
    let mut out: Vec<char> = match date {
        Some(stamp) => chars_of(file_name_text(stamp).as_str()),
        None => chars_of("unknown_date"),
    };
    out.push('_');
    let len: usize = name.len();
    match find_extension_dot(&name) {
        Some(dot) => {
            extend_chars(&mut out, &slice_chars(&name, 0, dot));
            out.push('.');
            extend_chars(&mut out, &slice_chars(&name, dot + 1, len));
        },
        None => {
            extend_chars(&mut out, &name);
            out.push('.');
        },
    }
    let r = string_of(&out);
    assert(r@ =~= preview_spec(original_name@, *date));
    r
}

/// The preview of the new name of a file.
pub fn generate_preview_name(original_name: &str, date_taken: &Option<String>) -> (r: String)
    ensures
        r@ == preview_spec(original_name@, date_of_text(opt_view(*date_taken))),
{
    let date: Option<Timestamp> = match date_taken {
        Some(text) => parse_date_flexible(text.as_str()),
        None => None,
    };
    compose_preview_name(original_name, &date)
}

/// The parts of a date as they are written: year, month, day, hour, minute
/// and second.
pub struct DateParts {
    pub year: Seq<char>,
    pub month: Seq<char>,
    pub day: Seq<char>,
    pub hour: Seq<char>,
    pub minute: Seq<char>,
    pub second: Seq<char>,
}

/// The written parts of a timestamp.
pub open spec fn parts_of(stamp: Timestamp) -> DateParts {
    DateParts {
        year: formatted_as(stamp, "%Y"@),
        month: formatted_as(stamp, "%m"@),
        day: formatted_as(stamp, "%d"@),
        hour: formatted_as(stamp, "%H"@),
        minute: formatted_as(stamp, "%M"@),
        second: formatted_as(stamp, "%S"@),
    }
}

/// One way of writing a date: three parts of the date with `date_sep` between
/// them, an underscore, and the three parts of the time with `time_sep`
/// between them.
pub open spec fn written(
    a: Seq<char>,
    b: Seq<char>,
    c: Seq<char>,
    date_sep: Seq<char>,
    p: DateParts,
    time_sep: Seq<char>,
) -> Seq<char> {
    a + date_sep + b + date_sep + c + seq!['_'] + p.hour + time_sep + p.minute + time_sep + p.second
}

/// The ways of writing a date that are looked for in a file name.
pub open spec fn date_forms(p: DateParts) -> Seq<Seq<char>> {
    let none = Seq::<char>::empty();
    seq![
        written(p.year, p.month, p.day, seq!['-'], p, none),
        written(p.year, p.month, p.day, seq!['-'], p, seq!['-']),
        written(p.year, p.month, p.day, seq!['_'], p, none),
        written(p.year, p.month, p.day, seq!['_'], p, seq!['-']),
        written(p.year, p.month, p.day, seq!['.'], p, seq!['-']),
        written(p.year, p.month, p.day, seq!['.'], p, none),
        written(p.year, p.month, p.day, none, p, none),
        written(p.day, p.month, p.year, seq!['-'], p, none),
        written(p.day, p.month, p.year, seq!['-'], p, seq!['-']),
        written(p.day, p.month, p.year, none, p, none),
    ]
}

/// The executable form of the written parts of a date.
pub struct WrittenParts {
    pub year: Vec<char>,
    pub month: Vec<char>,
    pub day: Vec<char>,
    pub hour: Vec<char>,
    pub minute: Vec<char>,
    pub second: Vec<char>,
}

impl View for WrittenParts {
    type V = DateParts;

    open spec fn view(&self) -> DateParts {
        DateParts {
            year: self.year@,
            month: self.month@,
            day: self.day@,
            hour: self.hour@,
            minute: self.minute@,
            second: self.second@,
        }
    }
}

/// Writes a date in one form.
fn write_form(
    a: &Vec<char>,
    b: &Vec<char>,
    c: &Vec<char>,
    date_sep: &Vec<char>,
    p: &WrittenParts,
    time_sep: &Vec<char>,
) -> (r: Vec<char>)
    ensures
        r@ == written(a@, b@, c@, date_sep@, p@, time_sep@),
{
    let mut out: Vec<char> = Vec::new();
    extend_chars(&mut out, a);
    extend_chars(&mut out, date_sep);
    extend_chars(&mut out, b);
    extend_chars(&mut out, date_sep);
    extend_chars(&mut out, c);
    out.push('_');
    extend_chars(&mut out, &p.hour);
    extend_chars(&mut out, time_sep);
    extend_chars(&mut out, &p.minute);
    extend_chars(&mut out, time_sep);
    extend_chars(&mut out, &p.second);
    assert(out@ =~= written(a@, b@, c@, date_sep@, p@, time_sep@));
    out
}

/// Writes a date in every form that is looked for in a file name.
pub fn make_date_forms(p: &WrittenParts) -> (r: Vec<Vec<char>>)
    ensures
        views(r@) == date_forms(p@),
{
    let none: Vec<char> = Vec::new();
    let dash: Vec<char> = vec!['-'];
    let low: Vec<char> = vec!['_'];
    let dot: Vec<char> = vec!['.'];
    let mut forms: Vec<Vec<char>> = Vec::new();
    forms.push(write_form(&p.year, &p.month, &p.day, &dash, p, &none));
    forms.push(write_form(&p.year, &p.month, &p.day, &dash, p, &dash));
    forms.push(write_form(&p.year, &p.month, &p.day, &low, p, &none));
    forms.push(write_form(&p.year, &p.month, &p.day, &low, p, &dash));
    forms.push(write_form(&p.year, &p.month, &p.day, &dot, p, &dash));
    forms.push(write_form(&p.year, &p.month, &p.day, &dot, p, &none));
    forms.push(write_form(&p.year, &p.month, &p.day, &none, p, &none));
    forms.push(write_form(&p.day, &p.month, &p.year, &dash, p, &none));
    forms.push(write_form(&p.day, &p.month, &p.year, &dash, p, &dash));
    forms.push(write_form(&p.day, &p.month, &p.year, &none, p, &none));
    assert(dash@ =~= seq!['-']);
    assert(low@ =~= seq!['_']);
    assert(dot@ =~= seq!['.']);
    assert(none@ =~= Seq::<char>::empty());
    assert(views(forms@) =~= date_forms(p@));
    forms
}

/// Whether `stem` holds one of `forms` in lowercase.
pub open spec fn holds_one_of(stem: Seq<char>, forms: Seq<Seq<char>>) -> bool {
    exists|i: int| 0 <= i < forms.len() && contains_spec(stem, lowercase_of(#[trigger] forms[i]))
}

/// Whether the lowercase stem of a file name holds one of the forms of a date.
pub fn stem_holds_one_of(stem: &str, forms: &Vec<Vec<char>>) -> (r: bool)
    ensures
        r == holds_one_of(stem@, views(forms@)),
{
    let hay = chars_of(stem);
    let mut i: usize = 0;
    while i < forms.len()
        invariant
            i <= forms@.len(),
            hay@ == stem@,
            forall|j: int|
                0 <= j < i ==> !contains_spec(stem@, lowercase_of(#[trigger] views(forms@)[j])),
        decreases forms@.len() - i,
    {
        let needle = chars_of(lowercase(string_of(&forms[i]).as_str()).as_str());
        if contains(&hay, &needle) {
            assert(contains_spec(stem@, lowercase_of(views(forms@)[i as int])));
            return true;
        }
        i += 1;
    }
    false
}

/// Whether `image` is the entry of the listing for `file`: the capture date is
/// read from the tag shown as `DateTimeOriginal`, the preview is made from it,
/// and the name counts as showing the date where its lowercase stem holds one
/// of the forms of the date. No entry is selected.
pub open spec fn lists(image: ImageFile, file: ListedFile) -> bool {
    let shown = described(file.tags@);
    let date = if shown.dom().contains("DateTimeOriginal"@) {
        normalized(shown["DateTimeOriginal"@])
    } else {
        None
    };
    let date_text = match date {
        Some(stamp) => Some(display_form(stamp)),
        None => None,
    };
    let in_name = match date {
        Some(stamp) => holds_one_of(
            lowercase_of(stem_spec(file.file_name@)),
            date_forms(parts_of(stamp)),
        ),
        None => false,
    };
    &&& image.path == file.path
    &&& image.file_name@ == file.file_name@
    &&& opt_view(image.date_taken) == date_text
    &&& !image.selected
    &&& opt_view(image.preview_name) == Some(
        preview_spec(file.file_name@, date_of_text(date_text)),
    )
    &&& image.preview_valid
    &&& image.date_in_name == in_name
    &&& image.exif_date_matches_name == in_name
    &&& image.exif_data.wf()
    &&& text_values(image.exif_data@) == shown
}

/// Writes the parts of a timestamp.
pub fn write_parts(stamp: &Timestamp) -> (r: WrittenParts)
    ensures
        r@ == parts_of(*stamp),
{
    proof {
        reveal_strlit("%Y");
        reveal_strlit("%m");
        reveal_strlit("%d");
        reveal_strlit("%H");
        reveal_strlit("%M");
        reveal_strlit("%S");
    }
    WrittenParts {
        year: chars_of(format_with(stamp, "%Y").as_str()),
        month: chars_of(format_with(stamp, "%m").as_str()),
        day: chars_of(format_with(stamp, "%d").as_str()),
        hour: chars_of(format_with(stamp, "%H").as_str()),
        minute: chars_of(format_with(stamp, "%M").as_str()),
        second: chars_of(format_with(stamp, "%S").as_str()),
    }
}

/// Makes the entry of the listing for one file.
pub fn describe_file(file: &ListedFile) -> (r: ImageFile)
    ensures
        lists(r, *file),
{
    let exif_data = extract_exif_data(&file.tags);
    let date: Option<Timestamp> = match exif_data.get("DateTimeOriginal") {
        Some(raw) => parse_date_flexible(raw.as_str()),
        None => None,
    };
    let date_taken: Option<String> = match &date {
        Some(stamp) => Some(display_text(stamp)),
        None => None,
    };
    let preview_name = generate_preview_name(file.file_name.as_str(), &date_taken);
    let date_in_name: bool = match &date {
        Some(stamp) => {
            let name = chars_of(file.file_name.as_str());
            let stem: Vec<char> = match find_extension_dot(&name) {
                Some(dot) => slice_chars(&name, 0, dot),
                None => name,
            };
            let lower = lowercase(string_of(&stem).as_str());
            let forms = make_date_forms(&write_parts(stamp));
            stem_holds_one_of(lower.as_str(), &forms)
        },
        None => false,
    };
    ImageFile {
        path: file.path.clone(),
        file_name: file.file_name.clone(),
        date_taken,
        selected: false,
        preview_name: Some(preview_name),
        preview_valid: true,
        date_in_name,
        exif_date_matches_name: date_in_name,
        exif_data,
    }
}

/// Makes the listing of the files of a folder, entry by entry.
pub fn collect_image_files(files: &Vec<ListedFile>) -> (r: Vec<ImageFile>)
    ensures
        r@.len() == files@.len(),
        forall|i: int| 0 <= i < files@.len() ==> lists(#[trigger] r@[i], files@[i]),
{
    let mut out: Vec<ImageFile> = Vec::new();
    let mut i: usize = 0;
    while i < files.len()
        invariant
            i <= files@.len(),
            out@.len() == i,
            forall|j: int| 0 <= j < i ==> lists(#[trigger] out@[j], files@[j]),
        decreases files@.len() - i,
    {
        out.push(describe_file(&files[i]));
        i += 1;
    }
    out
}

} // verus!
