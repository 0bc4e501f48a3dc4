//! From the tags of a container to the metadata record.

use crate::date::{normalized, parse_exif_date_str, reads_styles};
use crate::text::{
    capped, capped_spec, chars_of, clean, clean_spec, decimal, decimal_spec, decode_utf16_text,
    decode_utf8_text, dedup, extend_chars, first_occurrences, join, join_spec, opt_view,
    signed_decimal, signed_decimal_spec, split, split_spec, string_of, utf16_text, utf8_text,
    views,
};
use crate::types::{
    string_views, ExifData, ExifView, TagContext, TagField, TagId, TagValue, Timestamp,
};
use vstd::prelude::*;

verus! {

/// The cleaned texts of those byte strings that are valid UTF-8, in order.
pub open spec fn cleaned_texts(parts: Seq<Vec<u8>>) -> Seq<Seq<char>>
    decreases parts.len(),
{
    if parts.len() == 0 {
        Seq::<Seq<char>>::empty()
    } else {
        let init = cleaned_texts(parts.drop_last());
        match utf8_text(parts.last()@) {
            Some(t) => init.push(clean_spec(t)),
            None => init,
        }
    }
}

/// A fraction written as numerator, slash, denominator.
pub open spec fn fraction_spec(num: int, denom: int) -> Seq<char> {
    signed_decimal_spec(num) + seq!['/'] + signed_decimal_spec(denom)
}

/// The textual form of a tag value, for the kinds of value that have one.
///
/// Byte strings are decoded as UTF-8 and cleaned; integers are listed in
/// decimal and fractions as `n/d`, separated by a comma and a space; the
/// strings of an ASCII value are joined by a semicolon and a space.
pub open spec fn text_of_value(value: TagValue) -> Option<Seq<char>> {
    match value {
        TagValue::Ascii(parts) => {
            let texts = cleaned_texts(parts@);
            if texts.len() == 0 {
                None
            } else {
                Some(join_spec(texts, "; "@))
            }
        },
        TagValue::Byte(bytes) => match utf8_text(bytes@) {
            Some(t) => Some(clean_spec(t)),
            None => None,
        },
        TagValue::Undefined(bytes) => match utf8_text(bytes@) {
            Some(t) => Some(clean_spec(t)),
            None => None,
        },
        TagValue::Short(nums) => Some(
            join_spec(nums@.map_values(|n: u16| signed_decimal_spec(n as int)), ", "@),
        ),
        TagValue::Long(nums) => Some(
            join_spec(nums@.map_values(|n: u32| signed_decimal_spec(n as int)), ", "@),
        ),
        TagValue::SLong(nums) => Some(
            join_spec(nums@.map_values(|n: i32| signed_decimal_spec(n as int)), ", "@),
        ),
        TagValue::Float(nums) => Some(join_spec(nums@.map_values(|n: String| n@), ", "@)),
        TagValue::Double(nums) => Some(join_spec(nums@.map_values(|n: String| n@), ", "@)),
        TagValue::Rational(rats) => Some(
            join_spec(
                rats@.map_values(|r: (u32, u32)| fraction_spec(r.0 as int, r.1 as int)),
                ", "@,
            ),
        ),
        TagValue::SRational(rats) => Some(
            join_spec(
                rats@.map_values(|r: (i32, i32)| fraction_spec(r.0 as int, r.1 as int)),
                ", "@,
            ),
        ),
        _ => None,
    }
}

/// Writes a fraction.
fn fraction(num: i64, denom: i64) -> (r: Vec<char>)
    ensures
        r@ == fraction_spec(num as int, denom as int),
{
    let mut out = signed_decimal(num);
    out.push('/');
    let d = signed_decimal(denom);
    extend_chars(&mut out, &d);
    out
}

/// Joins the pieces of a list of numbers.
fn list_text(pieces: &Vec<Vec<char>>) -> (r: String)
    ensures
        r@ == join_spec(views(pieces@), ", "@),
{
    let sep = chars_of(", ");
    string_of(&join(pieces, &sep))
}

/// Decodes a byte string and cleans it.
fn bytes_text(bytes: &Vec<u8>) -> (r: Option<String>)
    ensures
        r is Some <==> utf8_text(bytes@) is Some,
        r matches Some(s) ==> s@ == clean_spec(utf8_text(bytes@)->0),
{
    match decode_utf8_text(bytes) {
        Some(s) => Some(string_of(&clean(&chars_of(s.as_str())))),
        None => None,
    }
}

/// Renders a tag value as text where it has a textual form.
pub fn value_to_string(value: &TagValue) -> (r: Option<String>)
    ensures
        r is Some <==> text_of_value(*value) is Some,
        r matches Some(s) ==> s@ == text_of_value(*value)->0,
{
    match value {
        TagValue::Ascii(parts) => {
            let mut texts: Vec<Vec<char>> = Vec::new();
            let mut i: usize = 0;
            assert(parts@.take(0) =~= Seq::<Vec<u8>>::empty());
            while i < parts.len()
                invariant
                    i <= parts@.len(),
                    views(texts@) == cleaned_texts(parts@.take(i as int)),
                decreases parts@.len() - i,
            {
                proof {
                    let t = parts@.take(i + 1);
                    assert(t.drop_last() =~= parts@.take(i as int));
                    assert(t.last() == parts@[i as int]);
                }
                let ghost before = views(texts@);
                match decode_utf8_text(&parts[i]) {
                    Some(s) => {
                        texts.push(clean(&chars_of(s.as_str())));
                        assert(views(texts@) =~= before.push(clean_spec(s@)));
                    },
                    None => {},
                }
                i += 1;
            }
            assert(parts@.take(parts@.len() as int) =~= parts@);
            if texts.len() == 0 {
                None
            } else {
                let sep = chars_of("; ");
                Some(string_of(&join(&texts, &sep)))
            }
        },
        TagValue::Byte(bytes) => bytes_text(bytes),
        TagValue::Undefined(bytes) => bytes_text(bytes),
        TagValue::Short(nums) => {
            let mut pieces: Vec<Vec<char>> = Vec::new();
            let mut i: usize = 0;
            while i < nums.len()
                invariant
                    i <= nums@.len(),
                    pieces@.len() == i,
                    forall|j: int|
                        0 <= j < i ==> (#[trigger] pieces@[j])@ == signed_decimal_spec(
                            nums@[j] as int,
                        ),
                decreases nums@.len() - i,
            {
                pieces.push(signed_decimal(nums[i] as i64));
                i += 1;
            }
            assert(views(pieces@) =~= nums@.map_values(|n: u16| signed_decimal_spec(n as int)));
            Some(list_text(&pieces))
        },
        TagValue::Long(nums) => {
            let mut pieces: Vec<Vec<char>> = Vec::new();
            let mut i: usize = 0;
            while i < nums.len()
                invariant
                    i <= nums@.len(),
                    pieces@.len() == i,
                    forall|j: int|
                        0 <= j < i ==> (#[trigger] pieces@[j])@ == signed_decimal_spec(
                            nums@[j] as int,
                        ),
                decreases nums@.len() - i,
            {
                pieces.push(signed_decimal(nums[i] as i64));
                i += 1;
            }
            assert(views(pieces@) =~= nums@.map_values(|n: u32| signed_decimal_spec(n as int)));
            Some(list_text(&pieces))
        },
        TagValue::SLong(nums) => {
            let mut pieces: Vec<Vec<char>> = Vec::new();
            let mut i: usize = 0;
            while i < nums.len()
                invariant
                    i <= nums@.len(),
                    pieces@.len() == i,
                    forall|j: int|
                        0 <= j < i ==> (#[trigger] pieces@[j])@ == signed_decimal_spec(
                            nums@[j] as int,
                        ),
                decreases nums@.len() - i,
            {
                pieces.push(signed_decimal(nums[i] as i64));
                i += 1;
            }
            assert(views(pieces@) =~= nums@.map_values(|n: i32| signed_decimal_spec(n as int)));
            Some(list_text(&pieces))
        },
        TagValue::Float(nums) => Some(rendered_list(nums)),
        TagValue::Double(nums) => Some(rendered_list(nums)),
        TagValue::Rational(rats) => {
            let mut pieces: Vec<Vec<char>> = Vec::new();
            let mut i: usize = 0;
            while i < rats.len()
                invariant
                    i <= rats@.len(),
                    pieces@.len() == i,
                    forall|j: int| 0 <= j < i ==> (#[trigger] pieces@[j])@ == fraction_spec(
                        rats@[j].0 as int,
                        rats@[j].1 as int,
                    ),
                decreases rats@.len() - i,
            {
                pieces.push(fraction(rats[i].0 as i64, rats[i].1 as i64));
                i += 1;
            }
            assert(views(pieces@) =~= rats@.map_values(
                |r: (u32, u32)| fraction_spec(r.0 as int, r.1 as int),
            ));
            Some(list_text(&pieces))
        },
        TagValue::SRational(rats) => {
            let mut pieces: Vec<Vec<char>> = Vec::new();
            let mut i: usize = 0;
            while i < rats.len()
                invariant
                    i <= rats@.len(),
                    pieces@.len() == i,
                    forall|j: int| 0 <= j < i ==> (#[trigger] pieces@[j])@ == fraction_spec(
                        rats@[j].0 as int,
                        rats@[j].1 as int,
                    ),
                decreases rats@.len() - i,
            {
                pieces.push(fraction(rats[i].0 as i64, rats[i].1 as i64));
                i += 1;
            }
            assert(views(pieces@) =~= rats@.map_values(
                |r: (i32, i32)| fraction_spec(r.0 as int, r.1 as int),
            ));
            Some(list_text(&pieces))
        },
        _ => None,
    }
}

/// Joins numbers that are held by their renderings.
fn rendered_list(nums: &Vec<String>) -> (r: String)
    ensures
        r@ == join_spec(nums@.map_values(|n: String| n@), ", "@),
{
    let mut pieces: Vec<Vec<char>> = Vec::new();
    let mut i: usize = 0;
    while i < nums.len()
        invariant
            i <= nums@.len(),
            pieces@.len() == i,
            forall|j: int| 0 <= j < i ==> (#[trigger] pieces@[j])@ == nums@[j]@,
        decreases nums@.len() - i,
    {
        pieces.push(chars_of(nums[i].as_str()));
        i += 1;
    }
    assert(views(pieces@) =~= nums@.map_values(|n: String| n@));
    list_text(&pieces)
}


/// The cleaned pieces of `pieces` that are not empty, in order.
pub open spec fn nonempty_cleaned(pieces: Seq<Seq<char>>) -> Seq<Seq<char>>
    decreases pieces.len(),
{
    if pieces.len() == 0 {
        pieces
    } else {
        let init = nonempty_cleaned(pieces.drop_last());
        let piece = clean_spec(pieces.last());
        if piece.len() == 0 {
            init
        } else {
            init.push(piece)
        }
    }
}

/// The keywords written in `text`: its pieces between semicolons, cleaned,
/// the empty ones left out.
pub open spec fn keyword_pieces(text: Seq<char>) -> Seq<Seq<char>> {
    nonempty_cleaned(split_spec(text, ';'))
}

/// The 16-bit units that `bytes` hold in little-endian order; a trailing odd
/// byte does not count.
pub open spec fn le_units(bytes: Seq<u8>) -> Seq<u16> {
    Seq::new((bytes.len() / 2) as nat, |i: int| (bytes[2 * i] + 256 * bytes[2 * i + 1]) as u16)
}

/// The text of a keyword value held as bytes: UTF-16 is tried first where the
/// length is even and at least two, then UTF-8.
pub open spec fn keyword_text(bytes: Seq<u8>) -> Option<Seq<char>> {
    if bytes.len() >= 2 && bytes.len() % 2 == 0 {
        match utf16_text(le_units(bytes)) {
            Some(t) => Some(t),
            None => utf8_text(bytes),
        }
    } else {
        utf8_text(bytes)
    }
}

/// The keywords of the byte strings of an ASCII value, one string after another.
pub open spec fn ascii_keywords(parts: Seq<Vec<u8>>) -> Seq<Seq<char>>
    decreases parts.len(),
{
    if parts.len() == 0 {
        Seq::<Seq<char>>::empty()
    } else {
        let init = ascii_keywords(parts.drop_last());
        match utf8_text(parts.last()@) {
            Some(t) => init + keyword_pieces(t),
            None => init,
        }
    }
}

/// The keywords of a value before repeated ones are removed.
pub open spec fn raw_keywords(value: TagValue) -> Seq<Seq<char>> {
    match value {
        TagValue::Ascii(parts) => ascii_keywords(parts@),
        TagValue::Undefined(bytes) => match keyword_text(bytes@) {
            Some(t) => keyword_pieces(t),
            None => Seq::<Seq<char>>::empty(),
        },
        TagValue::Byte(bytes) => match keyword_text(bytes@) {
            Some(t) => keyword_pieces(t),
            None => Seq::<Seq<char>>::empty(),
        },
        _ => Seq::<Seq<char>>::empty(),
    }
}

/// The keywords of a value: each keyword once, in the order of first occurrence.
pub open spec fn keywords_of(value: TagValue) -> Seq<Seq<char>> {
    first_occurrences(raw_keywords(value))
}

/// Appends the keywords written in `text` to `out`.
pub fn push_keywords(out: &mut Vec<Vec<char>>, text: &str)
    ensures
        views(final(out)@) == views(old(out)@) + keyword_pieces(text@),
{
    let pieces = split(&chars_of(text), ';');
    let ghost all = views(pieces@);
    let ghost start = views(out@);
    let mut i: usize = 0;
    assert(all.take(0) =~= Seq::<Seq<char>>::empty());
    assert(views(out@) =~= start + nonempty_cleaned(all.take(0)));
    while i < pieces.len()
        invariant
            i <= pieces@.len(),
            all == views(pieces@),
            views(out@) == start + nonempty_cleaned(all.take(i as int)),
        decreases pieces@.len() - i,
    {
        proof {
            let t = all.take(i + 1);
            assert(t.drop_last() =~= all.take(i as int));
            assert(t.last() == pieces@[i as int]@);
        }
        let ghost before = views(out@);
        let piece = clean(&pieces[i]);
        if piece.len() > 0 {
            out.push(piece);
            assert(views(out@) =~= before.push(piece@));
            assert(views(out@) =~= start + nonempty_cleaned(all.take(i + 1)));
        }
        i += 1;
    }
    assert(all.take(pieces@.len() as int) =~= all);
}

/// Reads `bytes` as 16-bit units in little-endian order.
pub fn units_of(bytes: &Vec<u8>) -> (r: Vec<u16>)
    ensures
        r@ == le_units(bytes@),
{
    let count: usize = bytes.len() / 2;
    let mut out: Vec<u16> = Vec::new();
    let mut i: usize = 0;
    while i < count
        invariant
            count == bytes@.len() / 2,
            bytes@.len() <= usize::MAX,
            i <= count,
            out@.len() == i,
            forall|j: int| 0 <= j < i ==> out@[j] == le_units(bytes@)[j],
        decreases count - i,
    {
        let lo: u16 = bytes[2 * i] as u16;
        let hi: u16 = bytes[2 * i + 1] as u16;
        out.push(lo + 256 * hi);
        i += 1;
    }
    assert(out@ =~= le_units(bytes@));
    out
}

/// The keywords that a keyword value held as bytes contributes, given what
/// the two decoders make of it.
pub open spec fn bytes_keywords_from(
    len: nat,
    wide: Option<Seq<char>>,
    narrow: Option<Seq<char>>,
) -> Seq<Seq<char>> {
    let text = if len >= 2 && len % 2 == 0 && wide is Some {
        wide
    } else {
        narrow
    };
    match text {
        Some(t) => keyword_pieces(t),
        None => Seq::<Seq<char>>::empty(),
    }
}

/// Appends the keywords of a keyword value of `len` bytes to `out`, from its
/// UTF-16 reading `wide` and its UTF-8 reading `narrow`.
pub fn push_decoded_keywords(
    out: &mut Vec<Vec<char>>,
    len: usize,
    wide: &Option<String>,
    narrow: &Option<String>,
)
    ensures
        views(final(out)@) == views(old(out)@) + bytes_keywords_from(
            len as nat,
            opt_view(*wide),
            opt_view(*narrow),
        ),
{
    let ghost start = views(out@);
    if len >= 2 && len % 2 == 0 {
        if let Some(text) = wide {
            push_keywords(out, text.as_str());
            return ;
        }
    }
    match narrow {
        Some(text) => {
            push_keywords(out, text.as_str());
        },
        None => {
            assert(views(out@) =~= start + Seq::<Seq<char>>::empty());
        },
    }
}

/// Appends the keywords of a keyword value held as bytes.
fn push_bytes_keywords(out: &mut Vec<Vec<char>>, bytes: &Vec<u8>)
    ensures
        views(final(out)@) == views(old(out)@) + (match keyword_text(bytes@) {
            Some(t) => keyword_pieces(t),
            None => Seq::<Seq<char>>::empty(),
        }),
{
    let wide = if bytes.len() >= 2 && bytes.len() % 2 == 0 {
        decode_utf16_text(&units_of(bytes))
    } else {
        None
    };
    let narrow = decode_utf8_text(bytes);
    push_decoded_keywords(out, bytes.len(), &wide, &narrow);
}

/// Packs character vectors into strings.
pub fn strings_of(list: &Vec<Vec<char>>) -> (r: Vec<String>)
    ensures
        string_views(r@) == views(list@),
{
    let mut out: Vec<String> = Vec::new();
    let mut i: usize = 0;
    while i < list.len()
        invariant
            i <= list@.len(),
            out@.len() == i,
            forall|j: int| 0 <= j < i ==> (#[trigger] out@[j])@ == list@[j]@,
        decreases list@.len() - i,
    {
        out.push(string_of(&list[i]));
        i += 1;
    }
    assert(string_views(out@) =~= views(list@));
    out
}

/// Reads the keywords of a keyword tag.
pub fn parse_kamadak_keywords(value: &TagValue) -> (r: Vec<String>)
    ensures
        string_views(r@) == keywords_of(*value),
{
    let mut keywords: Vec<Vec<char>> = Vec::new();
    assert(views(keywords@) =~= Seq::<Seq<char>>::empty());
    match value {
        TagValue::Ascii(parts) => {
            let mut i: usize = 0;
            assert(parts@.take(0) =~= Seq::<Vec<u8>>::empty());
            while i < parts.len()
                invariant
                    i <= parts@.len(),
                    views(keywords@) == ascii_keywords(parts@.take(i as int)),
                decreases parts@.len() - i,
            {
                proof {
                    let t = parts@.take(i + 1);
                    assert(t.drop_last() =~= parts@.take(i as int));
                    assert(t.last() == parts@[i as int]);
                }
                match decode_utf8_text(&parts[i]) {
                    Some(s) => {
                        push_keywords(&mut keywords, s.as_str());
                    },
                    None => {},
                }
                i += 1;
            }
            assert(parts@.take(parts@.len() as int) =~= parts@);
        },
        TagValue::Undefined(bytes) => {
            push_bytes_keywords(&mut keywords, bytes);
            assert(views(keywords@) =~= raw_keywords(*value));
        },
        TagValue::Byte(bytes) => {
            push_bytes_keywords(&mut keywords, bytes);
            assert(views(keywords@) =~= raw_keywords(*value));
        },
        _ => {},
    }
    strings_of(&dedup(keywords))
}

/// The timestamp of a date tag: the first string of an ASCII value, decoded as
/// UTF-8, cleaned and normalised.
pub open spec fn date_of_value(value: TagValue) -> Option<Timestamp> {
    match value {
        TagValue::Ascii(parts) => if parts@.len() > 0 {
            match utf8_text(parts@[0]@) {
                Some(t) => normalized(clean_spec(t)),
                None => None,
            }
        } else {
            None
        },
        _ => None,
    }
}

/// The text of a date tag that is normalised: the first string of an ASCII
/// value, decoded as UTF-8 and cleaned.
pub open spec fn date_text_of(value: TagValue) -> Option<Seq<char>> {
    match value {
        TagValue::Ascii(parts) => if parts@.len() > 0 {
            match utf8_text(parts@[0]@) {
                Some(t) => Some(clean_spec(t)),
                None => None,
            }
        } else {
            None
        },
        _ => None,
    }
}

/// Whether the text of a date tag, where it is a plain instant written in
/// one of the styles, is read as that instant.
pub open spec fn date_value_read(value: TagValue) -> bool {
    date_text_of(value) matches Some(text) ==> reads_styles(text)
}

/// Reads the timestamp of a date tag. A date of the years 0 to 9999 with a
/// time of whole seconds is read as the same instant in each of the styles.
pub fn parse_kamadak_date_value(value: &TagValue) -> (r: Option<Timestamp>)
    ensures
        r == date_of_value(*value),
        date_value_read(*value),
{
    match value {
        TagValue::Ascii(parts) => {
            if parts.len() > 0 {
                match decode_utf8_text(&parts[0]) {
                    Some(s) => parse_exif_date_str(s.as_str()),
                    None => None,
                }
            } else {
                None
            }
        },
        _ => None,
    }
}


/// What a tag contributes to: one of the named fields of the record, or the
/// map of other fields.
#[derive(Clone, Copy, Debug, PartialEq, Eq, Structural)]
pub enum FieldRole {
    DateTaken,
    CreateDate,
    ModifyDate,
    Artist,
    Description,
    CameraModel,
    LensModel,
    Title,
    Keywords,
    Other,
}

/// The role of each tag. The named roles go by context and number, title and
/// keywords by number alone.
pub open spec fn role_spec(tag: TagId) -> FieldRole {
    if tag.context == TagContext::Exif && tag.number == 0x9003 {
        FieldRole::DateTaken
    } else if tag.context == TagContext::Exif && tag.number == 0x9004 {
        FieldRole::CreateDate
    } else if tag.context == TagContext::Tiff && tag.number == 0x0132 {
        FieldRole::ModifyDate
    } else if tag.context == TagContext::Tiff && tag.number == 0x013B {
        FieldRole::Artist
    } else if tag.context == TagContext::Tiff && tag.number == 0x010E {
        FieldRole::Description
    } else if tag.context == TagContext::Tiff && tag.number == 0x0110 {
        FieldRole::CameraModel
    } else if tag.context == TagContext::Exif && tag.number == 0xA434 {
        FieldRole::LensModel
    } else if tag.number == 0x9C9B {
        FieldRole::Title
    } else if tag.number == 0x9C9E {
        FieldRole::Keywords
    } else {
        FieldRole::Other
    }
}

/// The role of a tag.
pub fn role_of(tag: TagId) -> (r: FieldRole)
    ensures
        r == role_spec(tag),
{
    let in_exif: bool = match tag.context {
        TagContext::Exif => true,
        _ => false,
    };
    let in_tiff: bool = match tag.context {
        TagContext::Tiff => true,
        _ => false,
    };
    if in_exif && tag.number == 0x9003 {
        FieldRole::DateTaken
    } else if in_exif && tag.number == 0x9004 {
        FieldRole::CreateDate
    } else if in_tiff && tag.number == 0x0132 {
        FieldRole::ModifyDate
    } else if in_tiff && tag.number == 0x013B {
        FieldRole::Artist
    } else if in_tiff && tag.number == 0x010E {
        FieldRole::Description
    } else if in_tiff && tag.number == 0x0110 {
        FieldRole::CameraModel
    } else if in_exif && tag.number == 0xA434 {
        FieldRole::LensModel
    } else if tag.number == 0x9C9B {
        FieldRole::Title
    } else if tag.number == 0x9C9E {
        FieldRole::Keywords
    } else {
        FieldRole::Other
    }
}

/// The name that `exif::Tag` displays for a tag: its symbolic name where the
/// tag is known, a generic rendering of context and number otherwise.
pub uninterp spec fn tag_name_of(tag: TagId) -> Seq<char>;

/// The display name of a tag.
///
/// Trusted: builds the `exif::Tag` with the same context and number and
/// returns what its `Display` writes. The contract only names that result.
#[verifier::external_body]
pub(crate) fn tag_name(tag: &TagId) -> (r: String)
    ensures
        r@ == tag_name_of(*tag),
{
    let context = match tag.context {
        TagContext::Tiff => exif::Context::Tiff,
        TagContext::Exif => exif::Context::Exif,
        TagContext::Gps => exif::Context::Gps,
        TagContext::Interop => exif::Context::Interop,
    };
    exif::Tag(context, tag.number).to_string()
}

/// The key of a tag among the other fields: its name and its sub-container index.
pub open spec fn field_key(name: Seq<char>, ifd_num: nat) -> Seq<char> {
    name + " (IFD"@ + decimal_spec(ifd_num) + ")"@
}

/// The number of characters that a value among the other fields may have
/// before it is cut.
pub const OTHER_VALUE_LIMIT: usize = 100;

/// The value of a tag among the other fields: its textual form, or a note
/// that shows `debug` where it has none; cut to the limit.
pub open spec fn field_text(text: Option<Seq<char>>, debug: Seq<char>) -> Seq<char> {
    capped_spec(
        match text {
            Some(t) => t,
            None => "<Non-string value: "@ + debug + ">"@,
        },
        OTHER_VALUE_LIMIT as nat,
    )
}

/// Builds the key of a tag among the other fields.
pub fn make_field_key(name: &str, ifd_num: u16) -> (r: String)
    ensures
        r@ == field_key(name@, ifd_num as nat),
{
    let mut key = chars_of(name);
    extend_chars(&mut key, &chars_of(" (IFD"));
    extend_chars(&mut key, &decimal(ifd_num as u64));
    extend_chars(&mut key, &chars_of(")"));
    string_of(&key)
}

/// Builds the value of a tag among the other fields.
pub fn make_field_text(text: Option<String>, debug: &str) -> (r: String)
    ensures
        r@ == field_text(opt_view(text), debug@),
{
    let full: Vec<char> = match text {
        Some(t) => chars_of(t.as_str()),
        None => {
            let mut note = chars_of("<Non-string value: ");
            extend_chars(&mut note, &chars_of(debug));
            extend_chars(&mut note, &chars_of(">"));
            note
        },
    };
    string_of(&capped(full, OTHER_VALUE_LIMIT))
}

/// The record after one more tag has been read. Each tag writes to the one
/// place that its role names; a later tag of the same role replaces an earlier one.
pub open spec fn apply_field(acc: ExifView, field: TagField) -> ExifView {
    match role_spec(field.tag) {
        FieldRole::DateTaken => ExifView { date_taken: date_of_value(field.value), ..acc },
        FieldRole::CreateDate => ExifView { create_date: date_of_value(field.value), ..acc },
        FieldRole::ModifyDate => ExifView { modify_date: date_of_value(field.value), ..acc },
        FieldRole::Artist => ExifView { artist: text_of_value(field.value), ..acc },
        FieldRole::Description => ExifView { description: text_of_value(field.value), ..acc },
        FieldRole::CameraModel => ExifView { camera_model: text_of_value(field.value), ..acc },
        FieldRole::LensModel => ExifView { lens_model: text_of_value(field.value), ..acc },
        FieldRole::Title => ExifView { title: text_of_value(field.value), ..acc },
        FieldRole::Keywords => ExifView { keywords: keywords_of(field.value), ..acc },
        FieldRole::Other => ExifView {
            other_fields: acc.other_fields.insert(
                field_key(tag_name_of(field.tag), field.ifd_num as nat),
                field_text(text_of_value(field.value), field.value_debug@),
            ),
            ..acc
        },
    }
}

/// The metadata record of a list of tags, read in order.
pub open spec fn metadata_of(fields: Seq<TagField>) -> ExifView
    decreases fields.len(),
{
    if fields.len() == 0 {
        ExifData::empty_view()
    } else {
        apply_field(metadata_of(fields.drop_last()), fields.last())
    }
}

/// Whether a role is one of the three date fields.
pub open spec fn is_date_role(role: FieldRole) -> bool {
    role == FieldRole::DateTaken || role == FieldRole::CreateDate || role == FieldRole::ModifyDate
}

/// Whether the text of every date tag of `fields`, where it is a plain
/// instant written in one of the styles, is read as that instant.
pub open spec fn dates_read(fields: Seq<TagField>) -> bool {
    forall|i: int|
        0 <= i < fields.len() && is_date_role(role_spec((#[trigger] fields[i]).tag))
            ==> date_value_read(fields[i].value)
}

/// Builds the metadata record from the tags of a container. A file whose
/// container could not be read has no tags, and its record is empty.
pub fn read_exif_data(fields: &Vec<TagField>) -> (r: ExifData)
    ensures
        r@ == metadata_of(fields@),
        r.other_fields.wf(),
        dates_read(fields@),
{
    let mut result = ExifData::empty();
    let mut i: usize = 0;
    assert(fields@.take(0) =~= Seq::<TagField>::empty());
    while i < fields.len()
        invariant
            i <= fields@.len(),
            result.other_fields.wf(),
            result@ == metadata_of(fields@.take(i as int)),
            dates_read(fields@.take(i as int)),
        decreases fields@.len() - i,
    {
        let field = &fields[i];
        let ghost before = result@;
        proof {
            let t = fields@.take(i + 1);
            assert(t.drop_last() =~= fields@.take(i as int));
            assert(t.last() == *field);
        }
        match role_of(field.tag) {
            FieldRole::DateTaken => {
                result.date_taken = parse_kamadak_date_value(&field.value);
            },
            FieldRole::CreateDate => {
                result.create_date = parse_kamadak_date_value(&field.value);
            },
            FieldRole::ModifyDate => {
                result.modify_date = parse_kamadak_date_value(&field.value);
            },
            FieldRole::Artist => {
                result.artist = value_to_string(&field.value);
            },
            FieldRole::Description => {
                result.description = value_to_string(&field.value);
            },
            FieldRole::CameraModel => {
                result.camera_model = value_to_string(&field.value);
            },
            FieldRole::LensModel => {
                result.lens_model = value_to_string(&field.value);
            },
            FieldRole::Title => {
                result.title = value_to_string(&field.value);
            },
            FieldRole::Keywords => {
                result.keywords = parse_kamadak_keywords(&field.value);
            },
            FieldRole::Other => {
                let name = tag_name(&field.tag);
                let key = make_field_key(name.as_str(), field.ifd_num);
                let text = make_field_text(
                    value_to_string(&field.value),
                    field.value_debug.as_str(),
                );
                let ghost old_map = result.other_fields@;
                result.other_fields.insert(key, text);
                assert(result.other_fields@.map_values(|s: String| s@) =~= old_map.map_values(
                    |s: String| s@,
                ).insert(key@, text@));
            },
        }
        assert(result@ =~= apply_field(before, *field));
        proof {
            let seen = fields@.take(i as int);
            let next = fields@.take(i + 1);
            assert forall|j: int|
                0 <= j < next.len() && is_date_role(role_spec((#[trigger] next[j]).tag))
                    implies date_value_read(next[j].value) by {
                if j < i {
                    assert(next[j] == seen[j]);
                }
            }
        }
        i += 1;
    }
    assert(fields@.take(fields@.len() as int) =~= fields@);
    result
}


/// A tag writes to one place: a tag with a named role leaves the other fields
/// as they are, and every other tag leaves the named fields as they are.
pub proof fn lemma_one_place(acc: ExifView, field: TagField)
    ensures
        role_spec(field.tag) != FieldRole::Other ==> apply_field(acc, field).other_fields
            == acc.other_fields,
        role_spec(field.tag) == FieldRole::Other ==> apply_field(acc, field) == (ExifView {
            other_fields: apply_field(acc, field).other_fields,
            ..acc
        }),
{
}

} // verus!
