use fast_xbrl_parser::decimal::{decimal_digits, padded_cik, parse_u64};
use fast_xbrl_parser::helpers::sanitize::text_from_nodes;
use fast_xbrl_parser::text::{
    chars_of, contains_chars, join_with, remove_all, replace_non_ascii, split_on_any, str_eq,
    string_from_chars,
};

#[test]
fn parse_u64_reads_decimal_numbers() {
    assert_eq!(parse_u64("123"), Some(123));
    assert_eq!(parse_u64("+7"), Some(7));
    assert_eq!(parse_u64("007"), Some(7));
    assert_eq!(parse_u64("18446744073709551615"), Some(u64::MAX));
}

#[test]
fn parse_u64_refuses_what_std_refuses() {
    for s in ["", "+", "-1", "12a", " 1", "18446744073709551616", "٣"] {
        assert_eq!(parse_u64(s), s.parse::<u64>().ok(), "{}", s);
        assert_eq!(parse_u64(s), None, "{}", s);
    }
}

#[test]
fn padded_cik_has_ten_digits() {
    assert_eq!(padded_cik(1326380), "0001326380");
    assert_eq!(padded_cik(0), "0000000000");
    assert_eq!(padded_cik(12345678901), "12345678901");
    for n in [0u64, 5, 1326380, 9999999999, u64::MAX] {
        assert_eq!(padded_cik(n), format!("{:0>10}", n));
        assert_eq!(parse_u64(&padded_cik(n)), Some(n));
    }
}

#[test]
fn decimal_digits_of_numbers() {
    assert_eq!(decimal_digits(0), vec!['0']);
    assert_eq!(decimal_digits(907), vec!['9', '0', '7']);
}

#[test]
fn splitting_at_characters() {
    assert_eq!(split_on_any("a/b//c", &['/']), vec!["a", "b", "", "c"]);
    assert_eq!(split_on_any("", &['/']), vec![""]);
    assert_eq!(split_on_any("x.y/z\\w", &['.', '/', '\\']), vec!["x", "y", "z", "w"]);
    let parts = split_on_any("ns:a:b", &[':']);
    assert_eq!(parts, vec!["ns", "a", "b"]);
    assert_eq!(join_with(&parts, ":"), "ns:a:b");
}

#[test]
fn joining_strings() {
    let parts = vec!["a".to_string(), "b".to_string()];
    assert_eq!(join_with(&parts, ", "), "a, b");
    assert_eq!(join_with(&[], ", "), "");
}

#[test]
fn removing_every_occurrence() {
    assert_eq!(remove_all("a.xml.xmlb", ".xml"), "ab");
    assert_eq!(remove_all(".x.xmlml", ".xml"), ".xml");
    assert_eq!(remove_all("abc", ""), "abc");
    assert_eq!(remove_all(".x.xmlml", ".xml"), ".x.xmlml".replace(".xml", ""));
}

#[test]
fn collapsing_white_space_twice_changes_nothing() {
    let once = text_from_nodes(vec![" a \n\n b\u{2003}\u{3000}c  ".to_string()]);
    assert_eq!(once, " a b c ");
    assert_eq!(text_from_nodes(vec![once.clone()]), once);
}

#[test]
fn string_helpers() {
    assert!(str_eq("abc", "abc"));
    assert!(!str_eq("abc", "abd"));
    assert!(!str_eq("é", "e"));
    assert_eq!(chars_of("añb"), vec!['a', 'ñ', 'b']);
    assert_eq!(string_from_chars(&['x', 'ñ']), "xñ");
    assert!(contains_chars(&chars_of("www.sec.gov/x"), &chars_of("sec.gov")));
    assert!(!contains_chars(&chars_of("sec.go"), &chars_of("sec.gov")));
    assert_eq!(replace_non_ascii("añb€"), "a b ");
}
