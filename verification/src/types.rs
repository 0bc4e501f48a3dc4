//! The records that the analysis produces and the values it reads.

use crate::assoc::TextMap;
use crate::text::opt_view;
use std::path::PathBuf;
use vstd::prelude::*;

verus! {

/// Whether `year` is a leap year of the proleptic Gregorian calendar.
pub open spec fn is_leap_year(year: int) -> bool {
    year % 4 == 0 && (year % 100 != 0 || year % 400 == 0)
}

/// The number of days of `month` in `year`; 0 for a month outside 1..=12.
pub open spec fn days_in_month(year: int, month: int) -> int {
    if month == 2 {
        if is_leap_year(year) {
            29
        } else {
            28
        }
    } else if month == 4 || month == 6 || month == 9 || month == 11 {
        30
    } else if 1 <= month <= 12 {
        31
    } else {
        0
    }
}

/// The smallest year a timestamp can hold.
pub const MIN_YEAR: i32 = -262143;

/// The largest year a timestamp can hold.
pub const MAX_YEAR: i32 = 262142;

/// Whether the seven parts name a calendar date and a time of day.
///
/// A leap second is written as second 59 with a nanosecond part of at least
/// 1,000,000,000.
pub open spec fn valid_parts(
    year: int,
    month: int,
    day: int,
    hour: int,
    minute: int,
    second: int,
    nanosecond: int,
) -> bool {
    &&& MIN_YEAR <= year <= MAX_YEAR
    &&& 1 <= month <= 12
    &&& 1 <= day <= days_in_month(year, month)
    &&& 0 <= hour < 24
    &&& 0 <= minute < 60
    &&& 0 <= second < 60
    &&& 0 <= nanosecond < 2_000_000_000
    &&& (nanosecond >= 1_000_000_000 ==> second == 59)
}

/// A canonical timestamp: a calendar date and a time of day without time zone.
#[derive(Clone, Copy, Debug, PartialEq, Eq, Structural)]
pub struct Timestamp {
    pub(crate) year: i32,
    pub(crate) month: u32,
    pub(crate) day: u32,
    pub(crate) hour: u32,
    pub(crate) minute: u32,
    pub(crate) second: u32,
    pub(crate) nanosecond: u32,
}

impl Timestamp {
    /// Every timestamp names a date and a time.
    #[verifier::type_invariant]
    pub closed spec fn inv(self) -> bool {
        valid_parts(
            self.year as int,
            self.month as int,
            self.day as int,
            self.hour as int,
            self.minute as int,
            self.second as int,
            self.nanosecond as int,
        )
    }

    /// The year of the timestamp.
    pub closed spec fn spec_year(self) -> int {
        self.year as int
    }

    /// The month of the timestamp.
    pub closed spec fn spec_month(self) -> int {
        self.month as int
    }

    /// The day of the timestamp.
    pub closed spec fn spec_day(self) -> int {
        self.day as int
    }

    /// The hour of the timestamp.
    pub closed spec fn spec_hour(self) -> int {
        self.hour as int
    }

    /// The minute of the timestamp.
    pub closed spec fn spec_minute(self) -> int {
        self.minute as int
    }

    /// The second of the timestamp.
    pub closed spec fn spec_second(self) -> int {
        self.second as int
    }

    /// The nanosecond of the timestamp.
    pub closed spec fn spec_nanosecond(self) -> int {
        self.nanosecond as int
    }

    /// Whether the parts of the timestamp name a date and a time; they always do.
    pub open spec fn is_valid(self) -> bool {
        valid_parts(
            self.spec_year(),
            self.spec_month(),
            self.spec_day(),
            self.spec_hour(),
            self.spec_minute(),
            self.spec_second(),
            self.spec_nanosecond(),
        )
    }

    /// Whether the timestamp has exactly these parts.
    pub open spec fn has_parts(
        self,
        year: int,
        month: int,
        day: int,
        hour: int,
        minute: int,
        second: int,
        nanosecond: int,
    ) -> bool {
        &&& self.spec_year() == year
        &&& self.spec_month() == month
        &&& self.spec_day() == day
        &&& self.spec_hour() == hour
        &&& self.spec_minute() == minute
        &&& self.spec_second() == second
        &&& self.spec_nanosecond() == nanosecond
    }

    /// The timestamp with the given parts, if they name a date and a time.
    pub fn from_parts(
        year: i32,
        month: u32,
        day: u32,
        hour: u32,
        minute: u32,
        second: u32,
        nanosecond: u32,
    ) -> (r: Option<Timestamp>)
        ensures
            r is Some <==> valid_parts(
                year as int,
                month as int,
                day as int,
                hour as int,
                minute as int,
                second as int,
                nanosecond as int,
            ),
            r matches Some(t) ==> t.has_parts(
                year as int,
                month as int,
                day as int,
                hour as int,
                minute as int,
                second as int,
                nanosecond as int,
            ),
    {
        if year < MIN_YEAR || year > MAX_YEAR || month < 1 || month > 12 || day < 1 {
            return None;
        }
        // 262400 is a multiple of 400, so the shifted year has the same
        // remainders and is never negative.
        let shifted: u32 = (year + 262400) as u32;
        assert(shifted % 4 == (year as int) % 4);
        assert(shifted % 100 == (year as int) % 100);
        assert(shifted % 400 == (year as int) % 400);
        let leap: bool = shifted % 4 == 0 && (shifted % 100 != 0 || shifted % 400 == 0);
        let days: u32 = if month == 2 {
            if leap {
                29
            } else {
                28
            }
        } else if month == 4 || month == 6 || month == 9 || month == 11 {
            30
        } else {
            31
        };
        if day > days || hour >= 24 || minute >= 60 || second >= 60 || nanosecond
            >= 2_000_000_000 || (nanosecond >= 1_000_000_000 && second != 59) {
            return None;
        }
        Some(Timestamp { year, month, day, hour, minute, second, nanosecond })
    }

    /// The timestamp with the given parts and no fraction of a second.
    pub fn new(year: i32, month: u32, day: u32, hour: u32, minute: u32, second: u32) -> (r: Option<
        Timestamp,
    >)
        ensures
            r is Some <==> valid_parts(
                year as int,
                month as int,
                day as int,
                hour as int,
                minute as int,
                second as int,
                0,
            ),
            r matches Some(t) ==> t.has_parts(
                year as int,
                month as int,
                day as int,
                hour as int,
                minute as int,
                second as int,
                0,
            ),
    {
        Timestamp::from_parts(year, month, day, hour, minute, second, 0)
    }

    /// The year of the timestamp.
    pub fn year(&self) -> (r: i32)
        ensures
            r == self.spec_year(),
            self.is_valid(),
    {
        proof {
            use_type_invariant(self);
        }
        self.year
    }

    /// The month of the timestamp.
    pub fn month(&self) -> (r: u32)
        ensures
            r == self.spec_month(),
            self.is_valid(),
    {
        proof {
            use_type_invariant(self);
        }
        self.month
    }

    /// The day of the timestamp.
    pub fn day(&self) -> (r: u32)
        ensures
            r == self.spec_day(),
            self.is_valid(),
    {
        proof {
            use_type_invariant(self);
        }
        self.day
    }

    /// The hour of the timestamp.
    pub fn hour(&self) -> (r: u32)
        ensures
            r == self.spec_hour(),
            self.is_valid(),
    {
        proof {
            use_type_invariant(self);
        }
        self.hour
    }

    /// The minute of the timestamp.
    pub fn minute(&self) -> (r: u32)
        ensures
            r == self.spec_minute(),
            self.is_valid(),
    {
        proof {
            use_type_invariant(self);
        }
        self.minute
    }

    /// The second of the timestamp.
    pub fn second(&self) -> (r: u32)
        ensures
            r == self.spec_second(),
            self.is_valid(),
    {
        proof {
            use_type_invariant(self);
        }
        self.second
    }

    /// The nanosecond of the timestamp.
    pub fn nanosecond(&self) -> (r: u32)
        ensures
            r == self.spec_nanosecond(),
            self.is_valid(),
    {
        proof {
            use_type_invariant(self);
        }
        self.nanosecond
    }
}


/// A file-system path; nothing of its contents is used in contracts.
#[verifier::external_type_specification]
#[verifier::external_body]
pub struct ExPathBuf(PathBuf);

/// Cloning a path yields an equal path, as `Clone` for `PathBuf` documents.
pub assume_specification[ <PathBuf as Clone>::clone ](path: &PathBuf) -> (r: PathBuf)
    ensures
        r == *path,
;

/// The group of tags within which a tag number is read.
#[derive(Clone, Copy, Debug, PartialEq, Eq, Structural)]
pub enum TagContext {
    Tiff,
    Exif,
    Gps,
    Interop,
}

/// The identifier of a tag: its context and its number.
#[derive(Clone, Copy, Debug, PartialEq, Eq, Structural)]
pub struct TagId {
    pub context: TagContext,
    pub number: u16,
}

/// The value of one tag, as the container stores it.
///
/// Floating-point values are held by their decimal renderings.
#[derive(Clone, Debug)]
pub enum TagValue {
    Byte(Vec<u8>),
    Ascii(Vec<Vec<u8>>),
    Short(Vec<u16>),
    Long(Vec<u32>),
    Rational(Vec<(u32, u32)>),
    SByte(Vec<i8>),
    Undefined(Vec<u8>),
    SShort(Vec<i16>),
    SLong(Vec<i32>),
    SRational(Vec<(i32, i32)>),
    Float(Vec<String>),
    Double(Vec<String>),
    Unknown,
}

/// One tag read from a file: identifier, sub-container index and value.
#[derive(Clone, Debug)]
pub struct TagField {
    pub tag: TagId,
    pub ifd_num: u16,
    pub value: TagValue,
    /// How the value prints for diagnosis; shown where it has no textual form.
    pub value_debug: String,
}

/// The metadata of one file.
#[derive(Clone, Debug)]
pub struct ExifData {
    pub date_taken: Option<Timestamp>,
    pub create_date: Option<Timestamp>,
    pub modify_date: Option<Timestamp>,
    pub artist: Option<String>,
    pub title: Option<String>,
    pub description: Option<String>,
    pub keywords: Vec<String>,
    pub camera_model: Option<String>,
    pub lens_model: Option<String>,
    pub other_fields: TextMap<String>,
}

/// One analysed file.
#[derive(Clone, Debug)]
pub struct FileAnalysis {
    pub full_original_path: PathBuf,
    pub original_name: String,
    pub folder_name: String,
    pub exif: ExifData,
    pub new_name: Option<String>,
    pub file_hash: Option<String>,
    pub is_duplicate: bool,
}


/// The mathematical content of a metadata record.
#[verifier::ext_equal]
pub struct ExifView {
    pub date_taken: Option<Timestamp>,
    pub create_date: Option<Timestamp>,
    pub modify_date: Option<Timestamp>,
    pub artist: Option<Seq<char>>,
    pub title: Option<Seq<char>>,
    pub description: Option<Seq<char>>,
    pub keywords: Seq<Seq<char>>,
    pub camera_model: Option<Seq<char>>,
    pub lens_model: Option<Seq<char>>,
    pub other_fields: Map<Seq<char>, Seq<char>>,
}

/// The views of a list of strings.
pub open spec fn string_views(v: Seq<String>) -> Seq<Seq<char>> {
    v.map_values(|s: String| s@)
}

impl View for ExifData {
    type V = ExifView;

    open spec fn view(&self) -> ExifView {
        ExifView {
            date_taken: self.date_taken,
            create_date: self.create_date,
            modify_date: self.modify_date,
            artist: opt_view(self.artist),
            title: opt_view(self.title),
            description: opt_view(self.description),
            keywords: string_views(self.keywords@),
            camera_model: opt_view(self.camera_model),
            lens_model: opt_view(self.lens_model),
            other_fields: self.other_fields@.map_values(|s: String| s@),
        }
    }
}

impl ExifData {
    /// A record without any metadata.
    pub open spec fn empty_view() -> ExifView {
        ExifView {
            date_taken: None,
            create_date: None,
            modify_date: None,
            artist: None,
            title: None,
            description: None,
            keywords: Seq::empty(),
            camera_model: None,
            lens_model: None,
            other_fields: Map::empty(),
        }
    }

    /// A record without any metadata: no date, no text, no keyword, and no
    /// other field under any key.
    pub fn empty() -> (r: ExifData)
        ensures
            r@ == ExifData::empty_view(),
            r.keywords@ == Seq::<String>::empty(),
            r.other_fields.wf(),
            r.other_fields@ == Map::<Seq<char>, String>::empty(),
            r.other_fields.keys() == Seq::<Seq<char>>::empty(),
    {
        let r = ExifData {
            date_taken: None,
            create_date: None,
            modify_date: None,
            artist: None,
            title: None,
            description: None,
            keywords: Vec::new(),
            camera_model: None,
            lens_model: None,
            other_fields: TextMap::new(),
        };
        assert(r@.keywords =~= Seq::<Seq<char>>::empty());
        assert(r@.other_fields =~= Map::<Seq<char>, Seq<char>>::empty());
        r
    }
}


/// The mathematical content of the record of a file.
#[verifier::ext_equal]
pub struct RecordView {
    pub full_original_path: PathBuf,
    pub original_name: Seq<char>,
    pub folder_name: Seq<char>,
    pub exif: ExifView,
    pub new_name: Option<Seq<char>>,
    pub file_hash: Option<Seq<char>>,
    pub is_duplicate: bool,
}

impl View for FileAnalysis {
    type V = RecordView;

    open spec fn view(&self) -> RecordView {
        RecordView {
            full_original_path: self.full_original_path,
            original_name: self.original_name@,
            folder_name: self.folder_name@,
            exif: self.exif@,
            new_name: opt_view(self.new_name),
            file_hash: opt_view(self.file_hash),
            is_duplicate: self.is_duplicate,
        }
    }
}

/// The views of a list of records.
pub open spec fn record_views(records: Seq<FileAnalysis>) -> Seq<RecordView> {
    records.map_values(|r: FileAnalysis| r@)
}

} // verus!
