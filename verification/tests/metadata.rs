use timeshot_core::exif::analyze::analyze_directory;
use timeshot_core::exif::reader::{
    make_field_key, make_field_text, parse_kamadak_date_value, parse_kamadak_keywords,
    push_decoded_keywords, push_keywords, read_exif_data, role_of, units_of, value_to_string,
    FieldRole,
};
use timeshot_core::types::{TagContext, TagField, TagId, TagValue, Timestamp};

fn tag(context: TagContext, number: u16) -> TagId {
    TagId { context, number }
}

fn field(context: TagContext, number: u16, value: TagValue) -> TagField {
    TagField { tag: tag(context, number), ifd_num: 0, value, value_debug: "raw".to_string() }
}

fn ascii(text: &str) -> TagValue {
    TagValue::Ascii(vec![text.as_bytes().to_vec()])
}

fn utf16(text: &str) -> Vec<u8> {
    text.encode_utf16().flat_map(|u| u.to_le_bytes()).collect()
}

fn words(list: &[&str]) -> Vec<String> {
    list.iter().map(|w| w.to_string()).collect()
}

#[test]
fn byte_strings_are_decoded_and_cleaned() {
    assert_eq!(value_to_string(&TagValue::Byte(b"  Canon\0\0".to_vec())), Some("Canon".to_string()));
    assert_eq!(value_to_string(&TagValue::Undefined(b"abc \0".to_vec())), Some("abc ".to_string()));
    assert_eq!(value_to_string(&TagValue::Undefined(b"\0\0 x \0 ".to_vec())), Some("\0\0 x ".to_string()));
    assert_eq!(value_to_string(&TagValue::Byte(vec![0xff, 0xfe])), None);
    assert_eq!(value_to_string(&TagValue::Byte(Vec::new())), Some(String::new()));
}

#[test]
fn ascii_strings_are_joined() {
    let value = TagValue::Ascii(vec![b" one ".to_vec(), vec![0xff], b"two\0".to_vec()]);
    assert_eq!(value_to_string(&value), Some("one; two".to_string()));
    assert_eq!(value_to_string(&ascii("Nikon")), Some("Nikon".to_string()));
    assert_eq!(value_to_string(&TagValue::Ascii(Vec::new())), None);
    assert_eq!(value_to_string(&TagValue::Ascii(vec![vec![0xff]])), None);
}

#[test]
fn numbers_are_listed() {
    assert_eq!(value_to_string(&TagValue::Short(vec![1, 20, 65535])), Some("1, 20, 65535".to_string()));
    assert_eq!(value_to_string(&TagValue::Short(Vec::new())), Some(String::new()));
    assert_eq!(value_to_string(&TagValue::Long(vec![0, 4294967295])), Some("0, 4294967295".to_string()));
    assert_eq!(
        value_to_string(&TagValue::SLong(vec![-2147483648, 7, 2147483647])),
        Some("-2147483648, 7, 2147483647".to_string())
    );
    assert_eq!(
        value_to_string(&TagValue::Float(words(&["1.5", "-0.25"]))),
        Some("1.5, -0.25".to_string())
    );
    assert_eq!(value_to_string(&TagValue::Double(words(&["3"]))), Some("3".to_string()));
}

#[test]
fn fractions_are_listed() {
    assert_eq!(
        value_to_string(&TagValue::Rational(vec![(1, 250), (28, 10)])),
        Some("1/250, 28/10".to_string())
    );
    assert_eq!(
        value_to_string(&TagValue::SRational(vec![(-1, 3), (2, -5)])),
        Some("-1/3, 2/-5".to_string())
    );
}

#[test]
fn other_kinds_have_no_text() {
    assert_eq!(value_to_string(&TagValue::SByte(vec![1])), None);
    assert_eq!(value_to_string(&TagValue::SShort(vec![1])), None);
    assert_eq!(value_to_string(&TagValue::Unknown), None);
}

#[test]
fn keywords_in_utf16() {
    let value = TagValue::Byte(utf16("sea; sky;sea ;\u{e9}t\u{e9}\0"));
    assert_eq!(parse_kamadak_keywords(&value), words(&["sea", "sky", "\u{e9}t\u{e9}"]));
    let value = TagValue::Undefined(utf16("one;two"));
    assert_eq!(parse_kamadak_keywords(&value), words(&["one", "two"]));
}

#[test]
fn keywords_in_plain_text() {
    assert_eq!(parse_kamadak_keywords(&TagValue::Undefined(b"a;b;c".to_vec())), words(&["a", "b", "c"]));
    assert_eq!(parse_kamadak_keywords(&TagValue::Byte(b" x ; ;y\0;".to_vec())), words(&["x", "y"]));
    let value = TagValue::Ascii(vec![b"red; green".to_vec(), vec![0xff], b"green;blue".to_vec()]);
    assert_eq!(parse_kamadak_keywords(&value), words(&["red", "green", "blue"]));
}

#[test]
fn utf16_is_tried_first_on_even_lengths() {
    let value = TagValue::Undefined(b"ab".to_vec());
    assert_eq!(parse_kamadak_keywords(&value), words(&["\u{6261}"]));
    let value = TagValue::Undefined(vec![0x00, 0xd8]);
    assert_eq!(parse_kamadak_keywords(&value), Vec::<String>::new());
    let value = TagValue::Undefined(vec![0x61, 0x3b, 0x00, 0xd8]);
    assert_eq!(parse_kamadak_keywords(&value), Vec::<String>::new());
    let value = TagValue::Undefined(vec![0x61, 0xd8, 0x80, 0x61]);
    assert_eq!(parse_kamadak_keywords(&value), words(&["a\u{600}a"]));
    let value = TagValue::Undefined(b"a;b".to_vec());
    assert_eq!(parse_kamadak_keywords(&value), words(&["a", "b"]));
}

#[test]
fn plain_text_is_the_fallback() {
    let mut out: Vec<Vec<char>> = Vec::new();
    push_decoded_keywords(&mut out, 4, &None, &Some("a;b".to_string()));
    push_decoded_keywords(&mut out, 4, &Some("w".to_string()), &Some("n".to_string()));
    push_decoded_keywords(&mut out, 3, &Some("w".to_string()), &Some("m".to_string()));
    push_decoded_keywords(&mut out, 0, &Some("w".to_string()), &None);
    let got: Vec<String> = out.into_iter().map(|k| k.into_iter().collect()).collect();
    assert_eq!(got, words(&["a", "b", "w", "m"]));
}

#[test]
fn repeated_keywords_are_kept_once() {
    let value = TagValue::Undefined(b"a;b;a;c;b;a;x".to_vec());
    assert_eq!(parse_kamadak_keywords(&value), words(&["a", "b", "c", "x"]));
}

#[test]
fn other_kinds_have_no_keywords() {
    assert!(parse_kamadak_keywords(&TagValue::Short(vec![1])).is_empty());
    assert!(parse_kamadak_keywords(&TagValue::Unknown).is_empty());
    assert!(parse_kamadak_keywords(&TagValue::Byte(vec![0xff])).is_empty());
}

#[test]
fn keyword_pieces_are_appended() {
    let mut out: Vec<Vec<char>> = vec![vec!['z']];
    push_keywords(&mut out, " a ;; b\0;");
    let got: Vec<String> = out.into_iter().map(|k| k.into_iter().collect()).collect();
    assert_eq!(got, words(&["z", "a", "b"]));
}

#[test]
fn units_are_little_endian() {
    assert_eq!(units_of(&vec![0x34, 0x12, 0xff, 0x00, 0x00, 0xff]), vec![0x1234, 0x00ff, 0xff00]);
    assert_eq!(units_of(&vec![0x34, 0x12, 0x56]), vec![0x1234]);
    assert!(units_of(&Vec::new()).is_empty());
}

#[test]
fn date_values() {
    let expected = Timestamp::new(2023, 4, 5, 10, 20, 30);
    assert_eq!(parse_kamadak_date_value(&ascii("2023:04:05 10:20:30")), expected);
    assert_eq!(parse_kamadak_date_value(&ascii("2023:04:05 10:20:30\0")), expected);
    let two = TagValue::Ascii(vec![b"2023-04-05 10:20:30".to_vec(), b"junk".to_vec()]);
    assert_eq!(parse_kamadak_date_value(&two), expected);
    assert_eq!(parse_kamadak_date_value(&ascii("junk")), None);
    assert_eq!(parse_kamadak_date_value(&TagValue::Ascii(Vec::new())), None);
    assert_eq!(parse_kamadak_date_value(&TagValue::Ascii(vec![vec![0xff]])), None);
    assert_eq!(parse_kamadak_date_value(&TagValue::Byte(b"2023:04:05 10:20:30".to_vec())), None);
}

#[test]
fn roles_of_tags() {
    assert_eq!(role_of(tag(TagContext::Exif, 0x9003)), FieldRole::DateTaken);
    assert_eq!(role_of(tag(TagContext::Exif, 0x9004)), FieldRole::CreateDate);
    assert_eq!(role_of(tag(TagContext::Tiff, 0x0132)), FieldRole::ModifyDate);
    assert_eq!(role_of(tag(TagContext::Tiff, 0x013b)), FieldRole::Artist);
    assert_eq!(role_of(tag(TagContext::Tiff, 0x010e)), FieldRole::Description);
    assert_eq!(role_of(tag(TagContext::Tiff, 0x0110)), FieldRole::CameraModel);
    assert_eq!(role_of(tag(TagContext::Exif, 0xa434)), FieldRole::LensModel);
    assert_eq!(role_of(tag(TagContext::Tiff, 0x9c9b)), FieldRole::Title);
    assert_eq!(role_of(tag(TagContext::Gps, 0x9c9e)), FieldRole::Keywords);
    assert_eq!(role_of(tag(TagContext::Tiff, 0x9003)), FieldRole::Other);
    assert_eq!(role_of(tag(TagContext::Exif, 0x0132)), FieldRole::Other);
    assert_eq!(role_of(tag(TagContext::Tiff, 0x010f)), FieldRole::Other);
}

#[test]
fn a_record_from_tags() {
    let fields = vec![
        field(TagContext::Exif, 0x9003, ascii("2023:04:05 10:20:30")),
        field(TagContext::Exif, 0x9004, ascii("2023:04:05 10:20:31")),
        field(TagContext::Tiff, 0x0132, ascii("not a date")),
        field(TagContext::Tiff, 0x013b, ascii("Ada")),
        field(TagContext::Tiff, 0x010e, ascii("A view")),
        field(TagContext::Tiff, 0x0110, ascii("X100")),
        field(TagContext::Exif, 0xa434, ascii("23mm")),
        field(TagContext::Tiff, 0x9c9b, TagValue::Byte(b"Title".to_vec())),
        field(TagContext::Tiff, 0x9c9e, TagValue::Byte(utf16("sea;sky"))),
        field(TagContext::Tiff, 0x010f, ascii("FUJIFILM")),
        field(TagContext::Exif, 0x8827, TagValue::Short(vec![400])),
    ];
    let data = read_exif_data(&fields);
    assert_eq!(data.date_taken, Timestamp::new(2023, 4, 5, 10, 20, 30));
    assert_eq!(data.create_date, Timestamp::new(2023, 4, 5, 10, 20, 31));
    assert_eq!(data.modify_date, None);
    assert_eq!(data.artist, Some("Ada".to_string()));
    assert_eq!(data.description, Some("A view".to_string()));
    assert_eq!(data.camera_model, Some("X100".to_string()));
    assert_eq!(data.lens_model, Some("23mm".to_string()));
    assert_eq!(data.title, Some("Title".to_string()));
    assert_eq!(data.keywords, words(&["sea", "sky"]));
    assert_eq!(data.other_fields.len(), 2);
    assert_eq!(data.other_fields.get("Make (IFD0)"), Some(&"FUJIFILM".to_string()));
    assert_eq!(data.other_fields.get("PhotographicSensitivity (IFD0)"), Some(&"400".to_string()));
    assert_eq!(data.other_fields.get("Artist (IFD0)"), None);
}

#[test]
fn a_later_tag_replaces_an_earlier_one() {
    let mut second = field(TagContext::Tiff, 0x010f, ascii("second"));
    second.ifd_num = 0;
    let mut thumbnail = field(TagContext::Tiff, 0x010f, ascii("thumb"));
    thumbnail.ifd_num = 1;
    let fields = vec![
        field(TagContext::Tiff, 0x013b, ascii("first")),
        field(TagContext::Tiff, 0x010f, ascii("first")),
        field(TagContext::Tiff, 0x013b, TagValue::Unknown),
        second,
        thumbnail,
    ];
    let data = read_exif_data(&fields);
    assert_eq!(data.artist, None);
    assert_eq!(data.other_fields.len(), 2);
    assert_eq!(data.other_fields.get("Make (IFD0)"), Some(&"second".to_string()));
    assert_eq!(data.other_fields.get("Make (IFD1)"), Some(&"thumb".to_string()));
}

#[test]
fn no_tags_give_an_empty_record() {
    let data = read_exif_data(&Vec::new());
    assert_eq!(data.date_taken, None);
    assert_eq!(data.create_date, None);
    assert_eq!(data.modify_date, None);
    assert_eq!(data.artist, None);
    assert_eq!(data.title, None);
    assert_eq!(data.description, None);
    assert!(data.keywords.is_empty());
    assert_eq!(data.camera_model, None);
    assert_eq!(data.lens_model, None);
    assert_eq!(data.other_fields.len(), 0);
}

#[test]
fn other_values_are_cut_at_the_limit() {
    let long = "x".repeat(101);
    let exact = "y".repeat(100);
    assert_eq!(make_field_text(Some(long), "d"), format!("{}...", "x".repeat(100)));
    assert_eq!(make_field_text(Some(exact.clone()), "d"), exact);
    assert_eq!(make_field_text(Some("\u{e9}".repeat(150)), "d"), format!("{}...", "\u{e9}".repeat(100)));
    assert_eq!(make_field_text(None, "SShort([1])"), "<Non-string value: SShort([1])>");
    assert_eq!(
        make_field_text(None, &"z".repeat(200)),
        format!("<Non-string value: {}...", "z".repeat(81))
    );
}

#[test]
fn values_without_text_are_noted() {
    let mut odd = field(TagContext::Tiff, 0x010f, TagValue::SShort(vec![1, 2]));
    odd.value_debug = "SShort([1, 2])".to_string();
    let data = read_exif_data(&vec![odd]);
    assert_eq!(
        data.other_fields.get("Make (IFD0)"),
        Some(&"<Non-string value: SShort([1, 2])>".to_string())
    );
}

#[test]
fn keys_of_other_fields() {
    assert_eq!(make_field_key("Make", 0), "Make (IFD0)");
    assert_eq!(make_field_key("Make", 1), "Make (IFD1)");
    assert_eq!(make_field_key("", 65535), " (IFD65535)");
}

#[test]
fn a_directory_of_files() {
    let files = vec![
        (std::path::PathBuf::from("a.jpg"), vec![field(TagContext::Tiff, 0x013b, ascii("Ada"))]),
        (std::path::PathBuf::from("b.jpg"), Vec::new()),
    ];
    let records = analyze_directory(&files);
    assert_eq!(records.len(), 2);
    assert_eq!(records[0].0, std::path::PathBuf::from("a.jpg"));
    assert_eq!(records[0].1.artist, Some("Ada".to_string()));
    assert_eq!(records[1].0, std::path::PathBuf::from("b.jpg"));
    assert_eq!(records[1].1.artist, None);
}
