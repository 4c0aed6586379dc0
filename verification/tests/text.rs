use filespace::numerals::{decimal_text, hex_text, signed_text};
use filespace::text::{
    chars_of, contains_text, eq_ignore_case, last_segment, lower_char, lower_text, non_empty,
    remove_char, split, starts_with, str_eq, string_of, strip_prefix, text_or_empty, trim,
    trim_backslashes, upper_char,
};
use filespace::text_map::{hash_key, TextMap};
use filespace::wide::{buffer_text, counted_text, decode, encode, find_nul};

#[test]
fn equal_texts() {
    assert!(str_eq("", ""));
    assert!(str_eq("目录", "目录"));
    assert!(!str_eq("a", "A"));
    assert!(!str_eq("a", "ab"));
}

#[test]
fn case_is_folded_for_ascii_only() {
    assert!(eq_ignore_case("C:\\Users", "c:\\uSERS"));
    assert!(!eq_ignore_case("É", "é"));
    assert_eq!(lower_text("ÄBC.TXT"), "Äbc.txt");
    assert_eq!(lower_char('Z'), 'z');
    assert_eq!(lower_char('['), '[');
    assert_eq!(upper_char('a'), 'A');
    assert_eq!(upper_char('é'), 'é');
}

#[test]
fn characters_and_back() {
    let v = chars_of("a𝄞b");
    assert_eq!(v, vec!['a', '𝄞', 'b']);
    assert_eq!(string_of(&v), "a𝄞b");
}

#[test]
fn last_segments() {
    assert_eq!(last_segment("C:\\dir\\file.tar.gz", '.'), "gz");
    assert_eq!(last_segment("C:\\dir\\file", '\\'), "file");
    assert_eq!(last_segment("plain", '.'), "plain");
    assert_eq!(last_segment("C:\\", '\\'), "");
}

#[test]
fn backslashes_are_trimmed_at_the_end() {
    assert_eq!(trim_backslashes("C:\\a\\\\"), "C:\\a");
    assert_eq!(trim_backslashes("\\\\"), "");
    assert_eq!(trim_backslashes("a"), "a");
}

#[test]
fn prefixes() {
    assert_eq!(strip_prefix("prop:System.Size", "prop:"), Some("System.Size"));
    assert_eq!(strip_prefix("pro", "prop:"), None);
    assert!(starts_with("::{GUID}", "::"));
    assert!(!starts_with(":", "::"));
}

#[test]
fn text_is_found_inside() {
    assert!(contains_text("新建(W)", "新建"));
    assert!(contains_text("abc", ""));
    assert!(!contains_text("ab", "abc"));
    assert_eq!(remove_char("&Open && close", '&'), "Open  close");
}

#[test]
fn white_space_is_trimmed_at_both_ends() {
    assert_eq!(trim(" \t\u{3000}a b\n"), "a b");
    assert_eq!(trim(" \u{A0}"), "");
    assert_eq!(trim(""), "");
}

#[test]
fn pieces_between_separators() {
    assert_eq!(split("a;;b", ';'), vec!["a", "", "b"]);
    assert_eq!(split("", ';'), vec![""]);
    assert_eq!(split(";", ';'), vec!["", ""]);
}

#[test]
fn optional_texts() {
    assert_eq!(non_empty(Some(String::new())), None);
    assert_eq!(non_empty(Some("a".to_string())), Some("a".to_string()));
    assert_eq!(non_empty(None), None);
    assert_eq!(text_or_empty(None), "");
    assert_eq!(text_or_empty(Some("b".to_string())), "b");
}

#[test]
fn numbers_as_text() {
    assert_eq!(decimal_text(0), "0");
    assert_eq!(decimal_text(u64::MAX), "18446744073709551615");
    assert_eq!(signed_text(-2147483648), "-2147483648");
    assert_eq!(signed_text(48), "48");
    assert_eq!(hex_text(0xAF, 4, true), "00AF");
    assert_eq!(hex_text(0xcbf2_9ce4_8422_2325, 16, false), "cbf29ce484222325");
}

#[test]
fn wide_text_round_trip() {
    let s = "a目𝄞";
    let u = encode(s);
    assert_eq!(u, vec![0x61, 0x76EE, 0xD834, 0xDD1E]);
    assert_eq!(decode(&u), s);
}

#[test]
fn unpaired_surrogates_are_replaced() {
    assert_eq!(decode(&[0x61, 0xD834, 0x62]), "a\u{FFFD}b");
    assert_eq!(decode(&[0xDD1E]), "\u{FFFD}");
    assert_eq!(decode(&[0xD834]), "\u{FFFD}");
}

#[test]
fn buffers_end_at_zero_or_at_their_length() {
    assert_eq!(find_nul(&[1, 2, 0, 3]), 2);
    assert_eq!(find_nul(&[1, 2]), 2);
    assert_eq!(buffer_text(&[0x61, 0, 0x62]), "a");
    assert_eq!(buffer_text(&[0x61, 0x62]), "ab");
    assert_eq!(counted_text(&[0x61, 0, 0x62], 3), "a\0b");
    assert_eq!(counted_text(&[0x61], 5), "a");
}

#[test]
fn known_hashes() {
    assert_eq!(hash_key(""), 0xcbf2_9ce4_8422_2325);
    assert_eq!(hash_key("a"), 0xaf63_dc4c_8601_ec8c);
    assert_eq!(hash_key("foobar"), 0x8594_4171_f739_67e8);
}

#[test]
fn text_map_holds_the_last_value() {
    let mut m: TextMap<u32> = TextMap::new();
    assert_eq!(m.get("a"), None);
    m.insert("a".to_string(), 1);
    m.insert("b".to_string(), 2);
    m.insert("a".to_string(), 3);
    assert_eq!(m.get("a"), Some(&3));
    assert_eq!(m.get("b"), Some(&2));
    assert_eq!(m.get("c"), None);
}
