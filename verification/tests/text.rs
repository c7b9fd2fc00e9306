use db_connections::text::{
    chars_of, clean_slice, folded_eq, is_space_char, lower_char, mentions_word, same_text,
    string_of, strip_quotes_slice, trim_end_slice, trim_slice, trim_start_slice,
};

fn cs(s: &str) -> Vec<char> {
    s.chars().collect()
}

fn st(s: &[char]) -> String {
    s.iter().collect()
}

#[test]
fn white_space_is_what_std_calls_white_space() {
    let mut n: u32 = 0;
    while n <= 0x10FFFF {
        if let Some(c) = char::from_u32(n) {
            assert_eq!(is_space_char(c), c.is_whitespace(), "U+{:04X}", n);
        }
        n += 1;
    }
}

#[test]
fn lower_folds_ascii_capitals_only() {
    let mut n: u32 = 0;
    while n <= 0x10FFFF {
        if let Some(c) = char::from_u32(n) {
            assert_eq!(lower_char(c), c.to_ascii_lowercase(), "U+{:04X}", n);
        }
        n += 1;
    }
    assert_eq!(lower_char('A'), 'a');
    assert_eq!(lower_char('Z'), 'z');
    assert_eq!(lower_char('\u{c4}'), '\u{c4}');
}

#[test]
fn chars_and_strings_convert_both_ways() {
    for s in ["", "abc", "d\u{e4}ta \u{1F600} \"q\"\n"] {
        assert_eq!(chars_of(s), cs(s));
        assert_eq!(string_of(&cs(s)), s);
    }
}

#[test]
fn trimming_agrees_with_std() {
    for s in ["", " ", "a", "  a b  ", "\t\r\n a\u{a0}", "\u{3000}x\u{2003}y\u{85}", " \" q \" "] {
        assert_eq!(st(trim_slice(&cs(s))), s.trim());
        assert_eq!(st(trim_start_slice(&cs(s))), s.trim_start());
        assert_eq!(st(trim_end_slice(&cs(s))), s.trim_end());
    }
}

#[test]
fn one_layer_of_quotes_is_stripped() {
    for (s, e) in [
        ("", ""), ("\"", ""), ("\"\"", ""), ("\"\"\"", "\""), ("\"a\"", "a"), ("\"a", "a"),
        ("a\"", "a"), ("a", "a"), ("\"\"a\"\"", "\"a\""), ("a\"b", "a\"b"), (" \"a\"", " \"a"),
    ] {
        assert_eq!(st(strip_quotes_slice(&cs(s))), e, "{:?}", s);
    }
    assert_eq!(st(clean_slice(&cs("  \" a \"  "))), " a ");
    assert_eq!(st(clean_slice(&cs(" \t "))), "");
}

#[test]
fn folded_comparison_ignores_ascii_case_of_the_text() {
    assert!(folded_eq(&cs("PrOvIdEr"), &cs("provider")));
    assert!(folded_eq(&cs(""), &cs("")));
    assert!(!folded_eq(&cs("provider"), &cs("Provider")));
    assert!(!folded_eq(&cs("providers"), &cs("provider")));
    assert!(!folded_eq(&cs("provide"), &cs("provider")));
    assert!(same_text(&cs("abc"), &cs("abc")));
    assert!(!same_text(&cs("abc"), &cs("abC")));
    assert!(!same_text(&cs("abc"), &cs("ab")));
}

#[test]
fn mentions_finds_a_word_anywhere() {
    let word = cs("connection");
    assert!(mentions_word(&cs("connection"), &word));
    assert!(mentions_word(&cs("the CONNECTIONstring"), &word));
    assert!(mentions_word(&cs("xxconnectionCoNnEcTiOn"), &word));
    assert!(!mentions_word(&cs("connectio"), &word));
    assert!(!mentions_word(&cs("connect ion"), &word));
    assert!(!mentions_word(&cs(""), &word));
    assert!(mentions_word(&cs(""), &cs("")));
    assert!(mentions_word(&cs("abc"), &cs("")));
    assert!(mentions_word(&cs("aab"), &cs("ab")));
}
