use local_gallery::text::{
    chars_of, contains_chars, contains_ignore_ascii_case, decimal_string, folded_chars, lower_char,
};

#[test]
fn decimal_string_renders_numbers() {
    assert_eq!(decimal_string(0), "0");
    assert_eq!(decimal_string(7), "7");
    assert_eq!(decimal_string(10), "10");
    assert_eq!(decimal_string(300), "300");
    assert_eq!(decimal_string(4_294_967_295), "4294967295");
    assert_eq!(decimal_string(u64::MAX), "18446744073709551615");
}

#[test]
fn chars_of_lists_characters_in_order() {
    assert_eq!(chars_of("añb"), vec!['a', 'ñ', 'b']);
    assert_eq!(chars_of(""), Vec::<char>::new());
}

#[test]
fn lower_char_folds_ascii_letters_only() {
    assert_eq!(lower_char('A'), 'a');
    assert_eq!(lower_char('Z'), 'z');
    assert_eq!(lower_char('m'), 'm');
    assert_eq!(lower_char('5'), '5');
    assert_eq!(lower_char('Ä'), 'Ä');
    assert_eq!(lower_char('['), '[');
    assert_eq!(lower_char('@'), '@');
}

#[test]
fn folded_chars_keeps_length() {
    assert_eq!(folded_chars("IMG_01.JPG"), chars_of("img_01.jpg"));
}

#[test]
fn contains_chars_finds_contiguous_parts() {
    let hay = chars_of("holiday");
    assert!(contains_chars(&hay, &chars_of("lid")));
    assert!(contains_chars(&hay, &chars_of("")));
    assert!(contains_chars(&hay, &chars_of("holiday")));
    assert!(contains_chars(&hay, &chars_of("day")));
    assert!(!contains_chars(&hay, &chars_of("hd")));
    assert!(!contains_chars(&hay, &chars_of("holidays")));
}

#[test]
fn search_ignores_ascii_case() {
    assert!(contains_ignore_ascii_case("/Photos/Beach.JPG", "beach"));
    assert!(contains_ignore_ascii_case("/photos/beach.jpg", "BEACH.J"));
    assert!(!contains_ignore_ascii_case("/photos/beach.jpg", "mountain"));
    assert!(!contains_ignore_ascii_case("Ärger", "ärger"));
}
