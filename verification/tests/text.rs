use net::text::{chars_of, copy_range, equals_range, find_char, same_text};

#[test]
fn chars_of_decodes_scalar_values() {
    assert_eq!(chars_of(""), Vec::<char>::new());
    assert_eq!(chars_of("aé公"), vec!['a', 'é', '公']);
}

#[test]
fn find_char_gives_first_position_or_end() {
    let chars = chars_of("a.b.c");
    assert_eq!(find_char(&chars, '.', 0, 5), 1);
    assert_eq!(find_char(&chars, '.', 1, 5), 1);
    assert_eq!(find_char(&chars, '.', 2, 5), 3);
    assert_eq!(find_char(&chars, '.', 4, 5), 5);
    assert_eq!(find_char(&chars, '.', 0, 1), 1);
    assert_eq!(find_char(&chars, 'x', 0, 5), 5);
    assert_eq!(find_char(&chars, '.', 5, 5), 5);
}

#[test]
fn ranges_are_compared_and_copied_by_position() {
    let chars = chars_of("hello world");
    assert_eq!(copy_range(&chars, 6, 11), chars_of("world"));
    assert_eq!(copy_range(&chars, 3, 3), Vec::<char>::new());
    assert!(equals_range(&chars_of("world"), &chars, 6, 11));
    assert!(!equals_range(&chars_of("world"), &chars, 5, 10));
    assert!(!equals_range(&chars_of("worlds"), &chars, 6, 11));
    assert!(!equals_range(&chars_of("would"), &chars, 6, 11));
    assert!(equals_range(&chars_of(""), &chars, 2, 2));
}

#[test]
fn same_text_compares_whole_strings() {
    assert!(same_text("", ""));
    assert!(same_text("etag", "etag"));
    assert!(!same_text("etag", "etaG"));
    assert!(!same_text("etag", "eta"));
    assert!(!same_text("eta", "etag"));
    assert!(!same_text("", "a"));
    assert!(same_text("公司", "公司"));
    assert!(!same_text("公司", "公"));
}
