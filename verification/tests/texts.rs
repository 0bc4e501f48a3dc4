use timeshot_core::assoc::TextMap;
use timeshot_core::text::{
    capped, char_is_space, clean, contains, decimal, dedup, digits, extend_chars, is_member, join,
    matches_at, next_decimal, occurs_in_order, only_digits, same_chars, signed_decimal,
    slice_chars, split, starts_with, underscored,
};

fn chars(s: &str) -> Vec<char> {
    s.chars().collect()
}

fn text(v: Vec<char>) -> String {
    v.into_iter().collect()
}

fn texts(v: Vec<Vec<char>>) -> Vec<String> {
    v.into_iter().map(text).collect()
}

#[test]
fn cleaning() {
    assert_eq!(text(clean(&chars("  a b \t\n"))), "a b");
    assert_eq!(text(clean(&chars("a\0\0"))), "a");
    assert_eq!(text(clean(&chars(" a\0 "))), "a");
    assert_eq!(text(clean(&chars("a \0"))), "a ");
    assert_eq!(text(clean(&chars("\0a"))), "\0a");
    assert_eq!(text(clean(&chars(" \u{a0}\u{3000}x\u{2003}\u{85}"))), "x");
    assert_eq!(text(clean(&chars("   "))), "");
    assert_eq!(text(clean(&chars("\0\0"))), "");
    assert_eq!(text(clean(&chars(""))), "");
}

#[test]
fn cleaning_agrees_with_trimming() {
    for sample in ["  a ", "\u{1680}b\u{2028}", "\u{200b}c", "\u{feff}d", "e\u{202f}", "\u{b}f\u{c}"] {
        assert_eq!(text(clean(&chars(sample))), sample.trim().trim_end_matches('\0'));
    }
    for code in 0u32..0x3100 {
        if let Some(c) = char::from_u32(code) {
            assert_eq!(char_is_space(c), c.is_whitespace());
        }
    }
}

#[test]
fn splitting() {
    assert_eq!(texts(split(&chars("a;b;c"), ';')), vec!["a", "b", "c"]);
    assert_eq!(texts(split(&chars("a;;c;"), ';')), vec!["a", "", "c", ""]);
    assert_eq!(texts(split(&chars(""), ';')), vec![""]);
    assert_eq!(texts(split(&chars(";"), ';')), vec!["", ""]);
    assert_eq!(texts(split(&chars("abc"), ';')), vec!["abc"]);
}

#[test]
fn joining() {
    let parts = vec![chars("a"), chars(""), chars("bc")];
    assert_eq!(text(join(&parts, &chars(", "))), "a, , bc");
    assert_eq!(text(join(&vec![chars("a")], &chars(", "))), "a");
    assert_eq!(text(join(&Vec::new(), &chars(", "))), "");
    assert_eq!(text(join(&parts, &chars(""))), "abc");
}

#[test]
fn numbers_in_decimal() {
    assert_eq!(text(decimal(0)), "0");
    assert_eq!(text(decimal(7)), "7");
    assert_eq!(text(decimal(10)), "10");
    assert_eq!(text(decimal(1203)), "1203");
    assert_eq!(text(decimal(u64::MAX)), "18446744073709551615");
    assert_eq!(text(signed_decimal(0)), "0");
    assert_eq!(text(signed_decimal(-1)), "-1");
    assert_eq!(text(signed_decimal(i64::MIN)), "-9223372036854775808");
    assert_eq!(text(signed_decimal(i64::MAX)), "9223372036854775807");
}

#[test]
fn cutting() {
    assert_eq!(text(capped(chars("abcdef"), 3)), "abc...");
    assert_eq!(text(capped(chars("abc"), 3)), "abc");
    assert_eq!(text(capped(chars(""), 0)), "");
    assert_eq!(text(capped(chars("a"), 0)), "...");
    assert_eq!(text(slice_chars(&chars("abcdef"), 2, 4)), "cd");
    assert_eq!(text(slice_chars(&chars("abcdef"), 6, 6)), "");
}

#[test]
fn underscores_and_digits() {
    assert_eq!(text(underscored(&chars("a b  c"))), "a_b__c");
    assert_eq!(text(underscored(&chars("a\tb"))), "a\tb");
    assert_eq!(text(digits(&chars("a1-b22_c\u{663}3"))), "1223");
    assert_eq!(text(digits(&chars("none"))), "");
    let mut out = chars("ab");
    extend_chars(&mut out, &chars("cd"));
    assert_eq!(text(out), "abcd");
}

#[test]
fn searching() {
    assert!(contains(&chars("hello"), &chars("ell")));
    assert!(contains(&chars("hello"), &chars("hello")));
    assert!(contains(&chars("hello"), &chars("o")));
    assert!(contains(&chars("hello"), &chars("")));
    assert!(contains(&chars(""), &chars("")));
    assert!(!contains(&chars("hello"), &chars("hellos")));
    assert!(!contains(&chars("hello"), &chars("lo!")));
    assert!(!contains(&chars(""), &chars("a")));
    assert!(matches_at(&chars("hello"), &chars("lo"), 3));
    assert!(!matches_at(&chars("hello"), &chars("lo"), 4));
    assert!(matches_at(&chars("hello"), &chars(""), 5));
    assert!(!matches_at(&chars("hello"), &chars(""), 6));
    assert!(starts_with(&chars("hello"), &chars("he")));
    assert!(!starts_with(&chars("hello"), &chars("el")));
    assert!(same_chars(&chars("a"), &chars("a")));
    assert!(!same_chars(&chars("a"), &chars("ab")));
    assert!(!same_chars(&chars("ab"), &chars("ac")));
}

#[test]
fn first_occurrences_stay() {
    let list = vec![chars("b"), chars("a"), chars("b"), chars("c"), chars("a")];
    assert!(is_member(&list, &chars("c")));
    assert!(!is_member(&list, &chars("d")));
    assert_eq!(texts(dedup(list)), vec!["b", "a", "c"]);
    assert!(dedup(Vec::new()).is_empty());
}

#[test]
fn a_map_keyed_by_text() {
    let mut map: TextMap<u32> = TextMap::new();
    assert_eq!(map.len(), 0);
    assert_eq!(map.get("a"), None);
    map.insert("a".to_string(), 1);
    map.insert("b".to_string(), 2);
    map.insert("a".to_string(), 3);
    assert_eq!(map.len(), 2);
    assert_eq!(map.get("a"), Some(&3));
    assert_eq!(map.get("b"), Some(&2));
    assert_eq!(map.get("c"), None);
    assert_eq!(map.find("a"), Some(0));
    assert_eq!(map.find("b"), Some(1));
    assert_eq!(map.find("c"), None);
    assert_eq!(map.key_at(1), "b");
    assert_eq!(map.value_at(0), &3);
}

#[test]
fn characters_in_order() {
    assert!(occurs_in_order(&chars("ace"), &chars("abcde")));
    assert!(occurs_in_order(&chars(""), &chars("abc")));
    assert!(occurs_in_order(&chars(""), &chars("")));
    assert!(occurs_in_order(&chars("abc"), &chars("abc")));
    assert!(occurs_in_order(&chars("aa"), &chars("aba")));
    assert!(!occurs_in_order(&chars("aa"), &chars("ab")));
    assert!(!occurs_in_order(&chars("ca"), &chars("abc")));
    assert!(!occurs_in_order(&chars("abcd"), &chars("abc")));
    assert!(!occurs_in_order(&chars("a"), &chars("")));
    assert!(only_digits(&chars("0123456789")));
    assert!(only_digits(&chars("")));
    assert!(!only_digits(&chars("12a")));
    assert!(!only_digits(&chars("1\u{663}")));
}

#[test]
fn the_next_number_in_decimal() {
    assert_eq!(text(next_decimal(chars("0"))), "1");
    assert_eq!(text(next_decimal(chars("8"))), "9");
    assert_eq!(text(next_decimal(chars("9"))), "10");
    assert_eq!(text(next_decimal(chars("19"))), "20");
    assert_eq!(text(next_decimal(chars("199"))), "200");
    assert_eq!(text(next_decimal(chars("999"))), "1000");
    assert_eq!(text(next_decimal(chars("18446744073709551615"))), "18446744073709551616");
    assert_eq!(text(next_decimal(chars(""))), "1");
    let mut n = chars("0");
    for expected in 1..=250u32 {
        n = next_decimal(n);
        assert_eq!(text(n.clone()), expected.to_string());
    }
}
