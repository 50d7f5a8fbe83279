use opensearch_connector::text::{
    after_first_match, before_char, contains_char, decimal_text, leading, replace, same_text,
    split_char, trim, trim_end_matches,
};

#[test]
fn trims_white_space() {
    assert_eq!(trim(" \t\u{3000}a b\u{0b}\n"), "a b");
    assert_eq!(trim("\u{200b}"), "\u{200b}");
    assert_eq!(trim("   "), "");
}

#[test]
fn white_space_is_what_unicode_says() {
    for c in '\u{0}'..=char::MAX {
        let expected = matches!(
            c,
            '\u{9}'..='\u{d}'
                | '\u{20}'
                | '\u{85}'
                | '\u{a0}'
                | '\u{1680}'
                | '\u{2000}'..='\u{200a}'
                | '\u{2028}'
                | '\u{2029}'
                | '\u{202f}'
                | '\u{205f}'
                | '\u{3000}'
        );
        assert_eq!(trim(&c.to_string()).is_empty(), expected);
    }
}

#[test]
fn trims_only_the_end() {
    assert_eq!(trim_end_matches("//a//", '/'), "//a");
    assert_eq!(trim_end_matches("//", '/'), "");
}

#[test]
fn cuts_and_splits() {
    assert_eq!(before_char("a@b@c", '@'), "a");
    assert_eq!(before_char("abc", '@'), "abc");
    assert_eq!(split_char("a::b", ':'), vec!["a", "", "b"]);
    assert_eq!(split_char("", ':'), vec![""]);
    assert_eq!(after_first_match("x://y://z", "://"), Some("y://z"));
    assert_eq!(after_first_match("x:/", "://"), None);
    assert_eq!(after_first_match("x://", "://"), Some(""));
    assert!(contains_char("a:b", ':'));
    assert!(!contains_char("ab", ':'));
}

#[test]
fn replaces_from_the_left_without_overlap() {
    assert_eq!(replace("aaa", "aa", "b"), "ba");
    assert_eq!(replace("xüx", "ü", "--"), "x--x");
    assert_eq!(replace("abc", "", "-"), "-a-b-c-");
    assert_eq!(replace("abc", "d", "-"), "abc");
    assert_eq!(replace("ab", "abc", "-"), "ab");
}

#[test]
fn writes_decimal_numerals() {
    assert_eq!(decimal_text(0), "0");
    assert_eq!(decimal_text(9), "9");
    assert_eq!(decimal_text(1020), "1020");
    assert_eq!(
        decimal_text(u128::MAX),
        "340282366920938463463374607431768211455"
    );
}

#[test]
fn takes_leading_characters() {
    assert_eq!(leading("äöü", 2), "äö");
    assert_eq!(leading("äöü", 3), "äöü");
    assert_eq!(leading("", 3), "");
}

#[test]
fn compares_texts() {
    assert!(same_text("ab", "ab"));
    assert!(!same_text("ab", "abc"));
    assert!(!same_text("ab", "Ab"));
}
