use mealplan::text::{
    all_chars, append, char_is_digit, char_is_space, contains_text, find, heading_level_of,
    join_all, matches_at, parse_numeral, same_text, split_at_char, text_less, text_of, to_chars,
    trim_end_bound,
};

fn chars(s: &str) -> Vec<char> {
    s.chars().collect()
}

#[test]
fn chars_and_text_are_inverse() {
    for s in ["", "a", "Frühstück", "a\tb\nc", "𝄞 clef"] {
        assert_eq!(to_chars(s), chars(s));
        assert_eq!(text_of(&chars(s)), s);
    }
    assert_eq!(to_chars("Öl").len(), 2);
    assert_eq!(
        all_chars(&vec!["g".to_string(), "Pr.".to_string()]),
        vec![chars("g"), chars("Pr.")]
    );
}

#[test]
fn find_gives_the_first_occurrence() {
    let s = chars("abcabcab");
    assert_eq!(find(&s, &chars("bc"), 0), Some(1));
    assert_eq!(find(&s, &chars("bc"), 2), Some(4));
    assert_eq!(find(&s, &chars("bc"), 5), None);
    assert_eq!(find(&s, &chars("ab"), 6), Some(6));
    assert_eq!(find(&s, &chars("abcabcabc"), 0), None);
    assert_eq!(find(&s, &chars(""), 3), Some(3));
    assert_eq!(find(&s, &chars(""), 8), Some(8));
    assert_eq!(find(&s, &chars(""), 9), None);
    assert_eq!(find(&chars("ää#"), &chars("#"), 0), Some(2));
    assert!(matches_at(&s, &chars("cab"), 2));
    assert!(!matches_at(&s, &chars("cab"), 3));
    assert!(!matches_at(&s, &chars("ab"), 7));
    assert!(!matches_at(&s, &chars("ab"), usize::MAX));
}

#[test]
fn split_cuts_at_every_separator() {
    let cut = |s: &str| -> Vec<String> {
        split_at_char(&chars(s), '|').iter().map(|p| p.iter().collect()).collect()
    };
    assert_eq!(cut(""), vec![""]);
    assert_eq!(cut("a"), vec!["a"]);
    assert_eq!(cut("a|b"), vec!["a", "b"]);
    assert_eq!(cut("|a||b|"), vec!["", "a", "", "b", ""]);
    assert_eq!(cut("|"), vec!["", ""]);
}

#[test]
fn join_undoes_split() {
    for s in ["", "a", "a b", " a  b ", "  ", "x y z"] {
        let parts = split_at_char(&chars(s), ' ');
        assert_eq!(join_all(&parts, &chars(" ")), chars(s));
    }
    let parts = vec![chars("a"), chars(""), chars("bc")];
    assert_eq!(join_all(&parts, &chars(", ")), chars("a, , bc"));
    assert_eq!(join_all(&vec![], &chars(", ")), chars(""));
    let mut out = chars("ab");
    append(&mut out, &chars("cd"));
    assert_eq!(out, chars("abcd"));
}

#[test]
fn numerals_are_digits_that_fit() {
    assert_eq!(parse_numeral(&chars("0")), Some(0));
    assert_eq!(parse_numeral(&chars("007")), Some(7));
    assert_eq!(parse_numeral(&chars("18446744073709551615")), Some(u64::MAX));
    assert_eq!(parse_numeral(&chars("18446744073709551616")), None);
    assert_eq!(parse_numeral(&chars("000018446744073709551615")), Some(u64::MAX));
    assert_eq!(parse_numeral(&chars("")), None);
    assert_eq!(parse_numeral(&chars("12a")), None);
    assert_eq!(parse_numeral(&chars("-1")), None);
    assert_eq!(parse_numeral(&chars("١٢")), None);
    assert!(char_is_digit('7') && !char_is_digit('x') && !char_is_digit('٣'));
}

#[test]
fn order_is_that_of_str() {
    let texts = ["", "a", "A", "ab", "b", "a b", "é", "z", "aa", "abc", "𝄞", "\u{ffff}", "B"];
    for a in texts {
        for b in texts {
            assert_eq!(text_less(&chars(a), &chars(b)), a < b);
            assert_eq!(same_text(&chars(a), &chars(b)), a == b);
        }
    }
    let list = vec![chars("g"), chars("kg")];
    assert!(contains_text(&list, &chars("kg")));
    assert!(!contains_text(&list, &chars("k")));
    assert!(!contains_text(&vec![], &chars("")));
}

#[test]
fn white_space_and_headings() {
    for c in [' ', '\t', '\r', '\n', '\x0b', '\x0c'] {
        assert!(char_is_space(c));
    }
    assert!(!char_is_space('a') && !char_is_space('\u{a0}'));
    assert_eq!(trim_end_bound(&chars("a b \t\r\n")), 3);
    assert_eq!(trim_end_bound(&chars("  ")), 0);
    assert_eq!(trim_end_bound(&chars("")), 0);
    assert_eq!(heading_level_of(&chars("## Zutaten")), 2);
    assert_eq!(heading_level_of(&chars("#")), 1);
    assert_eq!(heading_level_of(&chars("###\tx")), 3);
    assert_eq!(heading_level_of(&chars("#Einkauf")), 0);
    assert_eq!(heading_level_of(&chars(" # x")), 0);
    assert_eq!(heading_level_of(&chars("")), 0);
}
