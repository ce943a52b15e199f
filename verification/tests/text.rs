use calc_engine::text::{
    chars_of, find_comparator, letter_given, same_text, scan_run, split_segments, starts_with_at,
    text_between, CharClass,
};

fn chars(text: &str) -> Vec<char> {
    text.chars().collect()
}

#[test]
fn run_ends_at_the_first_character_outside_the_class() {
    assert_eq!(scan_run(&chars("123+4"), 0, CharClass::Numeric), 3);
    assert_eq!(scan_run(&chars("123+4"), 3, CharClass::Numeric), 3);
    assert_eq!(scan_run(&chars("123"), 1, CharClass::Numeric), 3);
    assert_eq!(scan_run(&chars("123"), 3, CharClass::Numeric), 3);
    assert_eq!(scan_run(&chars("sin(0)"), 0, CharClass::Letter), 3);
    assert_eq!(scan_run(&chars("a=b"), 0, CharClass::Except('=')), 1);
    assert_eq!(scan_run(&chars("2+2=4"), 0, CharClass::Plain), 3);
}

#[test]
fn prefix_is_tested_at_the_given_position() {
    assert!(starts_with_at(&chars("tan(ans)"), 4, "ans"));
    assert!(!starts_with_at(&chars("tan(ans)"), 0, "ans"));
    assert!(!starts_with_at(&chars("an"), 0, "ans"));
    assert!(starts_with_at(&chars("an"), 2, ""));
    assert!(starts_with_at(&chars("exp"), 0, "exp"));
}

#[test]
fn characters_are_copied_in_order() {
    assert_eq!(chars_of("a\u{e9}1"), vec!['a', '\u{e9}', '1']);
    assert_eq!(chars_of(""), Vec::<char>::new());
}

#[test]
fn text_between_copies_the_range() {
    assert_eq!(text_between(&chars("12+sin"), 3, 6), "sin".to_string());
    assert_eq!(text_between(&chars("12+sin"), 2, 2), String::new());
    assert_eq!(text_between(&chars("\u{e9}t\u{e9}"), 0, 3), "\u{e9}t\u{e9}".to_string());
}

#[test]
fn same_text_compares_character_by_character() {
    assert!(same_text("sqrt", "sqrt"));
    assert!(same_text("", ""));
    assert!(!same_text("sin", "sinh"));
    assert!(!same_text("sin", "son"));
    assert!(!same_text("e", "\u{e9}"));
}

#[test]
fn segments_are_the_non_empty_pieces() {
    assert_eq!(split_segments(&chars("2+2=4"), '='), vec!["2+2".to_string(), "4".to_string()]);
    assert_eq!(split_segments(&chars("=1==2="), '='), vec!["1".to_string(), "2".to_string()]);
    assert_eq!(split_segments(&chars("==="), '='), Vec::<String>::new());
    assert_eq!(split_segments(&chars(""), '='), Vec::<String>::new());
    assert_eq!(split_segments(&chars("12"), '='), vec!["12".to_string()]);
    assert_eq!(
        split_segments(&chars("1<2<3"), '<'),
        vec!["1".to_string(), "2".to_string(), "3".to_string()]
    );
}

#[test]
fn comparator_is_found_by_its_byte_position() {
    assert_eq!(find_comparator("3>2"), Some(1));
    assert_eq!(find_comparator("2+2=4"), Some(3));
    assert_eq!(find_comparator("1<2=3"), Some(1));
    assert_eq!(find_comparator("2+3"), None);
    assert_eq!(find_comparator(""), None);
    assert_eq!(find_comparator("\u{e9}=1"), Some(2));
    assert_eq!(find_comparator("\u{4eac}\u{1f49d}<"), Some(7));
}

#[test]
fn letters_inside_ascii_are_the_latin_letters() {
    assert!(letter_given('a', false));
    assert!(letter_given('z', true));
    assert!(letter_given('A', false));
    assert!(letter_given('Z', false));
    assert!(!letter_given('1', true));
    assert!(!letter_given('_', true));
    assert!(!letter_given('`', true));
    assert!(!letter_given('{', true));
    assert!(!letter_given('@', true));
    assert!(!letter_given('[', true));
    assert!(!letter_given('\u{7f}', true));
}

#[test]
fn letters_beyond_ascii_are_the_alphabetic_characters() {
    assert!(letter_given('\u{e9}', true));
    assert!(!letter_given('\u{e9}', false));
    assert!(letter_given('\u{80}', true));
    assert!(!letter_given('\u{1f49d}', false));
}
