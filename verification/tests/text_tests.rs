use hn_cli::text::{leading_numeral, parse_usize, wrap_text};

fn chars(s: &str) -> Vec<char> {
    s.chars().collect()
}

#[test]
fn wrap_never_splits_words() {
    // width 9: "aaaa bbbb" would fill the width exactly, so each word
    // stands on its own line
    assert_eq!(wrap_text("aaaa bbbb cccc", 9), vec!["aaaa", "bbbb", "cccc"]);
}

#[test]
fn wrap_packs_words_that_fit() {
    assert_eq!(wrap_text("ab cd ef", 9), vec!["ab cd ef"]);
    assert_eq!(wrap_text("ab cd ef gh", 9), vec!["ab cd ef", "gh"]);
}

#[test]
fn wrap_overlong_word_stands_alone_unmodified() {
    assert_eq!(
        wrap_text("tiny extraordinarily tiny", 8),
        vec!["tiny", "extraordinarily", "tiny"]
    );
}

#[test]
fn wrap_of_blank_text_is_empty() {
    assert!(wrap_text("", 10).is_empty());
    assert!(wrap_text("   \n\t ", 10).is_empty());
}

#[test]
fn parse_usize_accepts_digit_strings_only() {
    assert_eq!(parse_usize(&chars("0")), Some(0));
    assert_eq!(parse_usize(&chars("007")), Some(7));
    assert_eq!(parse_usize(&chars("142")), Some(142));
    assert_eq!(parse_usize(&chars("")), None);
    assert_eq!(parse_usize(&chars("12a")), None);
    assert_eq!(parse_usize(&chars("-3")), None);
    assert_eq!(parse_usize(&chars("99999999999999999999999")), None);
}

#[test]
fn leading_numeral_stops_at_the_first_non_digit() {
    assert_eq!(leading_numeral(&chars("97comments")), Some(97));
    assert_eq!(leading_numeral(&chars("142 points")), Some(142));
    assert_eq!(leading_numeral(&chars("no digits")), None);
}
