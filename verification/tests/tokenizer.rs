use db_connections::tokenizer::{tokenize, tokenize_attributes, Field};

fn pairs(fields: Vec<Field>) -> Vec<(String, String)> {
    fields.into_iter().map(|f| (f.key, f.value)).collect()
}

fn expect(list: &[(&str, &str)]) -> Vec<(String, String)> {
    list.iter().map(|(k, v)| (k.to_string(), v.to_string())).collect()
}

#[test]
fn tokenize_splits_on_semicolons_and_first_equals() {
    assert_eq!(
        pairs(tokenize("Data Source=db2; User Id=dvrpc; Extra=a=b")),
        expect(&[("Data Source", "db2"), ("User Id", "dvrpc"), ("Extra", "a=b")])
    );
}

#[test]
fn tokenize_skips_segments_without_equals() {
    assert_eq!(pairs(tokenize("a=1;;junk; b=2;")), expect(&[("a", "1"), ("b", "2")]));
    assert_eq!(pairs(tokenize("")), expect(&[]));
    assert_eq!(pairs(tokenize(";;;")), expect(&[]));
    assert_eq!(pairs(tokenize("no pairs here")), expect(&[]));
}

#[test]
fn tokenize_keeps_empty_values_and_keys() {
    assert_eq!(pairs(tokenize("a=;b= ;=c;=")), expect(&[("a", ""), ("b", ""), ("", "c"), ("", "")]));
}

#[test]
fn tokenize_trims_space_and_one_layer_of_quotes() {
    assert_eq!(
        pairs(tokenize("  \"key\" = \"value\" ;\t k2\r\n=\u{a0}v2\u{3000}")),
        expect(&[("key", "value"), ("k2", "v2")])
    );
    assert_eq!(pairs(tokenize("k=\"\"v\"\"")), expect(&[("k", "\"v\"")]));
    assert_eq!(pairs(tokenize("\"k=v\"")), expect(&[("k", "v")]));
    assert_eq!(pairs(tokenize("k=\" v \"")), expect(&[("k", " v ")]));
    assert_eq!(pairs(tokenize("k=\"")), expect(&[("k", "")]));
}

#[test]
fn tokenize_keeps_order_and_duplicates() {
    assert_eq!(pairs(tokenize("a=1;b=2;a=3")), expect(&[("a", "1"), ("b", "2"), ("a", "3")]));
}

#[test]
fn attributes_of_a_tag() {
    let tag = r#"<add name="nets" connectionString="Data Source=db2; User Id=dvrpc;" providerName="System.OracleClient"/>"#;
    assert_eq!(
        pairs(tokenize_attributes(tag).unwrap()),
        expect(&[
            ("name", "nets"),
            ("connectionString", "Data Source=db2; User Id=dvrpc;"),
            ("providerName", "System.OracleClient"),
        ])
    );
}

#[test]
fn attributes_allow_space_around_equals_and_no_element_name() {
    assert_eq!(
        pairs(tokenize_attributes("<a = \"1\"\n b\t=\t\"2\" \"c\"=\"3\">").unwrap()),
        expect(&[("a", "1"), ("b", "2"), ("c", "3")])
    );
}

#[test]
fn attribute_values_are_kept_as_written() {
    assert_eq!(
        pairs(tokenize_attributes(r#"<add a=" x > y = z ; " b="">"#).unwrap()),
        expect(&[("a", " x > y = z ; "), ("b", "")])
    );
}

#[test]
fn attributes_of_text_without_equals_are_none_found() {
    assert_eq!(pairs(tokenize_attributes("<connectionStrings>").unwrap()), expect(&[]));
    assert_eq!(pairs(tokenize_attributes("").unwrap()), expect(&[]));
}

#[test]
fn attributes_reject_values_that_are_not_quoted() {
    assert!(tokenize_attributes("<add a=1>").is_none());
    assert!(tokenize_attributes("<add a=>").is_none());
    assert!(tokenize_attributes("<add a=").is_none());
    assert!(tokenize_attributes("<add a=\"1\" b=\"2").is_none());
    assert!(tokenize_attributes("<add a=\"").is_none());
}
