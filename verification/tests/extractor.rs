use db_connections::extractor::{
    candidates_from_matches, extract_candidates, lines_of_block, nonblank_lines, pattern_of,
    Candidate, Format,
};

fn texts(candidates: Option<Vec<Candidate>>) -> Vec<String> {
    candidates.unwrap().into_iter().map(|c| c.text).collect()
}

#[test]
fn attribute_blocks_run_from_add_to_the_next_closing_bracket() {
    let content = "<configuration>\n<add name=\"a\"\n  value=\"1\"/> text <address x=\"2\"> <add key=\"b\" >>";
    let found = extract_candidates(content, Format::AttributeBlock, false);
    assert_eq!(texts(found), vec!["<add name=\"a\"\n  value=\"1\"/>", "<add key=\"b\" >"]);
}

#[test]
fn lenient_attribute_blocks_are_all_tags() {
    let content = "<a><add x=\"1\"/>\n<b\nc>";
    let found = extract_candidates(content, Format::AttributeBlock, true);
    assert_eq!(texts(found), vec!["<a>", "<add x=\"1\"/>", "<b\nc>"]);
}

#[test]
fn parenthesized_literals_run_to_the_next_closing_pair() {
    let content = "conn.Open(\"Provider=x;\nData Source=y\") other(\"a\")(b)(\"c\")";
    let found = extract_candidates(content, Format::ParenthesizedLiteral, false);
    assert_eq!(texts(found), vec!["(\"Provider=x;\nData Source=y\")", "(\"a\")", "(\"c\")"]);
}

#[test]
fn quoted_literals_pair_quotes_from_the_left() {
    let content = "x = \"one\" & \"two\nlines\" + \"\" \"open";
    let found = extract_candidates(content, Format::QuotedLiteral, false);
    assert_eq!(texts(found), vec!["\"one\"", "\"two\nlines\"", "\"\""]);
}

#[test]
fn json_blocks_give_their_lines() {
    let content = "{\n  \"Logging\": {},\n  \"ConnectionStrings\": {\n    \"A\": \"x\",\n\n    \"B\": \"y\"\n  },\n  \"ConnectionStrings\": { \"C\": \"z\" }\n}";
    let found = extract_candidates(content, Format::JsonBlock, false).unwrap();
    let expected = vec![
        "ConnectionStrings\": {",
        "    \"A\": \"x\",",
        "    \"B\": \"y\"",
        "  }",
        "ConnectionStrings\": { \"C\": \"z\" }",
    ];
    assert_eq!(found.len(), 5);
    for (c, e) in found.iter().zip(expected) {
        assert_eq!(c.text, e);
        assert_eq!(c.format, Format::JsonBlock);
    }
}

#[test]
fn candidates_carry_their_format() {
    let found = extract_candidates("(\"a\")", Format::ParenthesizedLiteral, false).unwrap();
    assert_eq!(
        found,
        vec![Candidate { text: "(\"a\")".to_string(), format: Format::ParenthesizedLiteral }]
    );
}

#[test]
fn content_without_match_has_no_candidate() {
    for format in [
        Format::AttributeBlock,
        Format::ParenthesizedLiteral,
        Format::QuotedLiteral,
        Format::JsonBlock,
    ] {
        assert_eq!(extract_candidates("plain text", format, false), Some(Vec::new()));
        assert_eq!(extract_candidates("", format, true), Some(Vec::new()));
    }
}

#[test]
fn every_pattern_is_accepted() {
    for lenient in [false, true] {
        for format in [
            Format::AttributeBlock,
            Format::ParenthesizedLiteral,
            Format::QuotedLiteral,
            Format::JsonBlock,
        ] {
            assert!(extract_candidates("x", format, lenient).is_some());
        }
    }
}

#[test]
fn patterns_are_fixed() {
    assert_eq!(pattern_of(Format::AttributeBlock, false), "(?s)<add .*?>");
    assert_eq!(pattern_of(Format::AttributeBlock, true), "(?s)<.*?>");
    assert_eq!(pattern_of(Format::ParenthesizedLiteral, false), r#"(?s)\(".*?"\)"#);
    assert_eq!(pattern_of(Format::ParenthesizedLiteral, true), r#"(?s)\(".*?"\)"#);
    assert_eq!(pattern_of(Format::QuotedLiteral, false), r#"(?s)".*?""#);
    assert_eq!(pattern_of(Format::JsonBlock, false), r#"(?s)ConnectionStrings.*?\}"#);
}

#[test]
fn matches_become_candidates_one_for_one() {
    let matches = vec!["<add a>".to_string(), "<add b>".to_string()];
    assert_eq!(
        candidates_from_matches(Format::AttributeBlock, &matches),
        vec![
            Candidate { text: "<add a>".to_string(), format: Format::AttributeBlock },
            Candidate { text: "<add b>".to_string(), format: Format::AttributeBlock },
        ]
    );
    assert_eq!(candidates_from_matches(Format::QuotedLiteral, &Vec::new()), Vec::new());
}

#[test]
fn block_matches_become_line_candidates() {
    let matches = vec!["ConnectionStrings {\na\n}".to_string(), "ConnectionStrings {b\n \nc}".to_string()];
    let found = candidates_from_matches(Format::JsonBlock, &matches);
    let lines: Vec<&str> = found.iter().map(|c| c.text.as_str()).collect();
    assert_eq!(lines, vec!["ConnectionStrings {", "a", "}", "ConnectionStrings {b", "c}"]);
}

#[test]
fn lines_of_a_block_are_all_its_lines_that_are_not_blank() {
    assert_eq!(
        lines_of_block("ConnectionStrings\": {\n  one\n\t\n  two,\r\n}"),
        vec!["ConnectionStrings\": {", "  one", "  two,\r", "}"]
    );
    assert_eq!(lines_of_block("marker { a { b }"), vec!["marker { a { b }"]);
    assert_eq!(lines_of_block("no braces\nat all"), vec!["no braces", "at all"]);
    assert_eq!(lines_of_block(" \n\t\n"), Vec::<String>::new());
    assert_eq!(lines_of_block(""), Vec::<String>::new());
}

#[test]
fn blank_lines_are_dropped() {
    let text: Vec<char> = "\n a \n\n \t\r\nb\n".chars().collect();
    assert_eq!(nonblank_lines(&text), vec![" a ", "b"]);
    let empty: Vec<char> = Vec::new();
    assert_eq!(nonblank_lines(&empty), Vec::<String>::new());
}
