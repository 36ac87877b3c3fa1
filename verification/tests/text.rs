use meeting_agent::text::{
    byte_count, chars_of, cut_point, first_bytes, hex16, is_blank, join_texts, lines_of,
    push_decimal, push_hex_digits, push_signed, push_three_digits, push_two_digits, replace_text,
    same_option_text, same_text, strip_end_chars, text_contains, trimmed,
};

#[test]
fn texts_are_compared_by_their_characters() {
    assert!(same_text("캡션", "캡션"));
    assert!(!same_text("a", "A"));
    assert!(same_option_text(&None, &None));
    assert!(!same_option_text(&None, &Some(String::new())));
    assert!(same_option_text(&Some("x".to_string()), &Some("x".to_string())));
}

#[test]
fn a_needle_is_found_anywhere() {
    assert!(text_contains("the control bar", "control"));
    assert!(text_contains("abc", ""));
    assert!(text_contains("", ""));
    assert!(!text_contains("", "a"));
    assert!(!text_contains("aab", "aaa"));
    assert!(text_contains("aaab", "aab"));
}

#[test]
fn trimming_takes_white_space_off_both_ends() {
    assert_eq!(trimmed("  a b\t\n"), "a b");
    assert_eq!(trimmed("\u{3000}x\u{00a0}"), "x");
    assert_eq!(trimmed(" \n "), "");
    assert!(is_blank(" \t\u{2003}"));
    assert!(is_blank(""));
    assert!(!is_blank(" . "));
}

#[test]
fn a_run_at_the_end_is_stripped() {
    let kept = strip_end_chars("Kim,,".chars().collect(), ',');
    assert_eq!(kept.into_iter().collect::<String>(), "Kim");
}

#[test]
fn lines_end_at_line_feeds() {
    assert_eq!(lines_of("a\nb\r\n\nc"), vec!["a", "b", "", "c"]);
    assert_eq!(lines_of("a\n"), vec!["a"]);
    assert_eq!(lines_of("a\r"), vec!["a\r"]);
    assert!(lines_of("").is_empty());
    for sample in ["", "\n", "\r\n", "x\r\ny", "one\ntwo\n\n", "a\r\r\nb"] {
        let expected: Vec<&str> = sample.lines().collect();
        assert_eq!(lines_of(sample), expected);
    }
}

#[test]
fn replacing_goes_from_the_left() {
    assert_eq!(replace_text("aaa", "aa", "b"), "ba");
    assert_eq!(replace_text("{{A}}-{{A}}", "{{A}}", "x"), "x-x");
    assert_eq!(replace_text("none", "{{A}}", "x"), "none");
}

#[test]
fn joining_starts_where_it_is_told() {
    let parts = vec!["a".to_string(), "b".to_string(), "c".to_string()];
    assert_eq!(join_texts(&parts, 0, " "), "a b c");
    assert_eq!(join_texts(&parts, 1, ", "), "b, c");
    assert_eq!(join_texts(&parts, 3, ", "), "");
}

#[test]
fn numbers_are_written_in_digits() {
    let mut s = String::new();
    push_decimal(&mut s, 0);
    s.push(' ');
    push_decimal(&mut s, 340282366920938463463374607431768211455);
    s.push(' ');
    push_two_digits(&mut s, 7);
    push_two_digits(&mut s, 123);
    s.push(' ');
    push_three_digits(&mut s, 7);
    push_three_digits(&mut s, 45);
    push_three_digits(&mut s, 6789);
    s.push(' ');
    push_signed(&mut s, i64::MIN);
    s.push(' ');
    push_hex_digits(&mut s, 0xdead_beef);
    assert_eq!(
        s,
        "0 340282366920938463463374607431768211455 07123 0070456789 -9223372036854775808 deadbeef"
    );
    assert_eq!(hex16(255), "00000000000000ff");
    assert_eq!(hex16(u64::MAX), "ffffffffffffffff");
}

#[test]
fn bytes_are_counted_as_utf8() {
    let chars = chars_of("a é 한 😀");
    assert_eq!(byte_count(&chars, chars.len()), "a é 한 😀".len() as u128);
    assert_eq!(cut_point(&chars, 0), Some(0));
    assert_eq!(cut_point(&chars, 2), Some(2));
    assert_eq!(cut_point(&chars, 3), None);
    assert_eq!(cut_point(&chars, 4), Some(3));
    assert_eq!(cut_point(&chars, 1000), None);
}

#[test]
fn a_cut_inside_a_character_is_refused() {
    assert_eq!(first_bytes("abc", 3), Some("abc".to_string()));
    assert_eq!(first_bytes("abcd", 3), Some("abc".to_string()));
    assert_eq!(first_bytes("ab한", 3), None);
    assert_eq!(first_bytes("ab한국", 5), Some("ab한".to_string()));
}
