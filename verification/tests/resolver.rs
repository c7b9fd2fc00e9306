use db_connections::resolver::{
    extract_from_asp_classic, extract_from_asp_net, extract_from_json, extract_from_json_line,
    locate, resolve, Connection, ExtractionError,
};
use db_connections::key::KeyRole;
use db_connections::tokenizer::Field;

const PROVIDER_SPELLINGS: [&str; 6] = [
    "provider",
    "Provider",
    "providerName",
    "Providername",
    "ProviderName",
    "providername",
];

fn field(key: &str, value: &str) -> Field {
    Field { key: key.to_string(), value: value.to_string() }
}

#[test]
fn extract_from_asp_net_succeeds() {
    let file = "some_path";
    for provider in PROVIDER_SPELLINGS {
        let element_str = &format!(
            r#"<add name="nets" 
                connectionString="Data Source=db2; User Id=dvrpc;" 
                {provider}="System.OracleClient"/>""#
        );
        let c = extract_from_asp_net(element_str, file).unwrap();
        assert!(c.is_some());
        assert_eq!(c.clone().unwrap().data_source, "db2".to_string());
        assert_eq!(c.clone().unwrap().user_id, "dvrpc".to_string());
        assert_eq!(c.unwrap().provider, "System.OracleClient".to_string())
    }
}

#[test]
fn extract_from_asp_classic_succeeds_1() {
    let file = "some_path";
    for provider in PROVIDER_SPELLINGS {
        let element_str = &format!(
            r#"("{provider}=OraOLEDB.Oracle;
                Data Source=dvrpcdb2;User ID=dvrpc;Password=something;")"#
        );
        let c = extract_from_asp_classic(element_str, file).unwrap();
        assert!(c.is_some());
        assert_eq!(c.clone().unwrap().data_source, "dvrpcdb2".to_string());
        assert_eq!(c.clone().unwrap().user_id, "dvrpc".to_string());
        assert_eq!(c.unwrap().provider, "OraOLEDB.Oracle".to_string())
    }
}

#[test]
fn extract_from_asp_classic_succeeds_2() {
    let file = "some_path";
    for provider in PROVIDER_SPELLINGS {
        let element_str =
            &format!("Data Source=db2; User Id=dvrpc; {provider}=System.OracleClient",);
        let c = extract_from_asp_classic(element_str, file).unwrap();
        assert!(c.is_some());
        assert_eq!(c.clone().unwrap().data_source, "db2".to_string());
        assert_eq!(c.clone().unwrap().user_id, "dvrpc".to_string());
        assert_eq!(c.unwrap().provider, "System.OracleClient".to_string())
    }
}

#[test]
fn connection_carries_the_path_of_its_file() {
    let c = extract_from_asp_classic("Data Source=a;User Id=b;Provider=c", "dir/site.asp")
        .unwrap()
        .unwrap();
    assert_eq!(
        c,
        Connection {
            path: "dir/site.asp".to_string(),
            data_source: "a".to_string(),
            user_id: "b".to_string(),
            provider: "c".to_string(),
        }
    );
}

#[test]
fn segments_resolve_in_any_order() {
    let orders = [
        "Data Source=X; User Id=Y; Provider=Z",
        "Data Source=X; Provider=Z; User Id=Y",
        "User Id=Y; Data Source=X; Provider=Z",
        "User Id=Y; Provider=Z; Data Source=X",
        "Provider=Z; Data Source=X; User Id=Y",
        "Provider=Z; User Id=Y; Data Source=X",
    ];
    for fragment in orders {
        let c = extract_from_asp_classic(fragment, "p").unwrap().unwrap();
        assert_eq!(c.data_source, "X");
        assert_eq!(c.user_id, "Y");
        assert_eq!(c.provider, "Z");
    }
}

#[test]
fn keys_resolve_in_any_case_and_padding() {
    let c = extract_from_asp_classic(
        "  DATA SOURCE =X;\tuSeR iD\t= Y ;\r\n pRoViDeRnAmE = Z ",
        "p",
    )
    .unwrap()
    .unwrap();
    assert_eq!(c.data_source, "X");
    assert_eq!(c.user_id, "Y");
    assert_eq!(c.provider, "Z");
}

#[test]
fn provider_synonyms_give_the_same_value() {
    for key in ["Provider", "provider", "ProviderName", "providername"] {
        let fragment = format!("Data Source=d;User Id=u;{key}=Z");
        let c = extract_from_asp_classic(&fragment, "p").unwrap().unwrap();
        assert_eq!(c.provider, "Z");
    }
}

#[test]
fn values_keep_their_case() {
    let c = extract_from_asp_classic("data source=MiXeD;user id=UsEr;provider=PrOv", "p")
        .unwrap()
        .unwrap();
    assert_eq!(c.data_source, "MiXeD");
    assert_eq!(c.user_id, "UsEr");
    assert_eq!(c.provider, "PrOv");
}

#[test]
fn empty_value_is_a_located_field() {
    let c = extract_from_asp_classic("Data Source=;User Id=;Provider=", "p").unwrap().unwrap();
    assert_eq!(c.data_source, "");
    assert_eq!(c.user_id, "");
    assert_eq!(c.provider, "");
}

#[test]
fn value_may_hold_an_equals_sign() {
    let c = extract_from_asp_classic("Data Source=a=b;User Id=u;Provider=p=q=r", "p")
        .unwrap()
        .unwrap();
    assert_eq!(c.data_source, "a=b");
    assert_eq!(c.provider, "p=q=r");
}

#[test]
fn later_field_of_a_role_wins() {
    let c = extract_from_asp_classic("Data Source=one;User Id=u;Provider=p;Data Source=two", "p")
        .unwrap()
        .unwrap();
    assert_eq!(c.data_source, "two");
}

#[test]
fn key_that_only_contains_a_name_is_not_recognised() {
    let r = extract_from_asp_classic("Data Source=d;User Id 2=u;Provider=p", "f.asp");
    assert_eq!(
        r,
        Err(ExtractionError {
            path: "f.asp".to_string(),
            message: "missing required field: user id".to_string(),
        })
    );
}

#[test]
fn missing_provider_is_an_error_when_relevant() {
    let r = extract_from_asp_classic("Data Source=db2; User Id=dvrpc; Connection Timeout=5", "legacy.asp");
    assert_eq!(
        r,
        Err(ExtractionError {
            path: "legacy.asp".to_string(),
            message: "missing required field: provider".to_string(),
        })
    );
}

#[test]
fn missing_data_source_is_an_error() {
    let r = extract_from_asp_classic("User Id=u;Provider=p", "f");
    assert_eq!(r.unwrap_err().message, "missing required field: data source");
}

#[test]
fn missing_user_id_is_an_error() {
    let r = extract_from_asp_classic("Data Source=d;Provider=p", "f");
    assert_eq!(r.unwrap_err().message, "missing required field: user id");
}

#[test]
fn several_missing_fields_are_listed_in_order() {
    let r = extract_from_asp_classic("Provider=p", "f");
    assert_eq!(r.unwrap_err().message, "missing required field: data source, user id");
    let r = extract_from_asp_classic("ADODB.Connection", "f");
    assert_eq!(
        r.unwrap_err().message,
        "missing required field: data source, user id, provider"
    );
    let r = extract_from_asp_classic("User Id=u;connection", "f");
    assert_eq!(r.unwrap_err().message, "missing required field: data source, provider");
}

#[test]
fn irrelevant_literal_is_passed_over() {
    assert_eq!(extract_from_asp_classic("Data Source=db2; User Id=dvrpc;", "legacy.asp"), Ok(None));
    assert_eq!(extract_from_asp_classic("hello world", "f"), Ok(None));
    assert_eq!(extract_from_asp_classic("", "f"), Ok(None));
}

#[test]
fn irrelevant_tag_is_passed_over() {
    assert_eq!(extract_from_asp_net(r#"<add key="a" value="b"/>"#, "f"), Ok(None));
    assert_eq!(extract_from_asp_net(r#"<add key="broken value=b/>"#, "f"), Ok(None));
}

#[test]
fn relevance_ignores_case() {
    assert!(extract_from_asp_classic("xxCONNECTIONxx", "f").is_err());
    assert!(extract_from_asp_classic("xxPrOvIdErxx", "f").is_err());
}

#[test]
fn tag_without_provider_is_an_error() {
    let r = extract_from_asp_net(
        r#"<add name="nets" connectionString="Data Source=db2; User Id=dvrpc;"/>"#,
        "web.config",
    );
    assert_eq!(
        r,
        Err(ExtractionError {
            path: "web.config".to_string(),
            message: "missing required field: provider".to_string(),
        })
    );
}

#[test]
fn provider_inside_connection_string_has_precedence() {
    let c = extract_from_asp_net(
        r#"<add providerName="Outer" connectionString="Data Source=d;User Id=u;Provider=Inner" />"#,
        "f",
    )
    .unwrap()
    .unwrap();
    assert_eq!(c.provider, "Inner");
    let c = extract_from_asp_net(
        r#"<add connectionString="Data Source=d;User Id=u;Provider=Inner" providerName="Outer" />"#,
        "f",
    )
    .unwrap()
    .unwrap();
    assert_eq!(c.provider, "Inner");
}

#[test]
fn connection_string_attribute_name_ignores_case() {
    for name in ["connectionString", "ConnectionString", "CONNECTIONSTRING", "connectionstring"] {
        let tag = format!(r#"<add {name}="Data Source=d;User Id=u" providerName="P"/>"#);
        let c = extract_from_asp_net(&tag, "f").unwrap().unwrap();
        assert_eq!(c.data_source, "d");
        assert_eq!(c.user_id, "u");
        assert_eq!(c.provider, "P");
    }
}

#[test]
fn tag_spanning_lines_resolves() {
    let tag = "<add name=\"n\"\r\n     connectionString=\"Data Source=d;\r\n User Id=u\"\r\n     providerName=\"P\"\r\n/>";
    let c = extract_from_asp_net(tag, "f").unwrap().unwrap();
    assert_eq!((c.data_source.as_str(), c.user_id.as_str(), c.provider.as_str()), ("d", "u", "P"));
}

#[test]
fn malformed_tag_is_an_error() {
    let expected = Err(ExtractionError {
        path: "web.config".to_string(),
        message: "malformed candidate: attribute value is not a quoted string".to_string(),
    });
    assert_eq!(
        extract_from_asp_net(r#"<add name="x" connectionString="Data Source=a>"#, "web.config"),
        expected
    );
    assert_eq!(
        extract_from_asp_net(r#"<add name=x connectionString="Data Source=a">"#, "web.config"),
        expected
    );
    assert_eq!(extract_from_asp_net("<add connectionString=", "web.config"), expected);
}

#[test]
fn json_line_resolves() {
    let line = r#"    "Default": "Data Source=db2; User Id=dvrpc; Provider=OraOLEDB.Oracle;","#;
    let c = extract_from_json_line(line, "appsettings.json").unwrap().unwrap();
    assert_eq!(c.path, "appsettings.json");
    assert_eq!(c.data_source, "db2");
    assert_eq!(c.user_id, "dvrpc");
    assert_eq!(c.provider, "OraOLEDB.Oracle");
}

#[test]
fn json_line_value_may_hold_a_colon() {
    let line = r#""Db" : "Data Source=host:1521/x;User Id=u;Provider=p""#;
    let c = extract_from_json_line(line, "f").unwrap().unwrap();
    assert_eq!(c.data_source, "host:1521/x");
    let bare = "Data Source=host:1521/x;User Id=u;Provider=p";
    let c = extract_from_json_line(bare, "f").unwrap().unwrap();
    assert_eq!(c.data_source, "host:1521/x");
}

#[test]
fn json_line_without_keyword_is_passed_over() {
    assert_eq!(extract_from_json_line(r#""Db": "Server=.;Database=x""#, "f"), Ok(None));
}

#[test]
fn json_line_missing_fields_is_an_error() {
    let r = extract_from_json_line(r#""DefaultConnection": "Server=.;Database=x""#, "f.json");
    assert_eq!(
        r,
        Err(ExtractionError {
            path: "f.json".to_string(),
            message: "missing required field: data source, user id, provider".to_string(),
        })
    );
}

#[test]
fn json_block_gives_one_result_per_line() {
    let block = "ConnectionStrings\": {\n    \"A\": \"Data Source=a;User Id=ua;Provider=pa\",\n\n    \"B\": \"Data Source=b;User Id=ub;Provider=pb\",\n    \"Other\": \"Server=x\",\n    \"CConnection\": \"Server=y\"\n  }";
    let (connections, errors) = extract_from_json(block, "s.json");
    assert_eq!(connections.len(), 2);
    assert_eq!(connections[0].data_source, "a");
    assert_eq!(connections[0].provider, "pa");
    assert_eq!(connections[1].data_source, "b");
    assert_eq!(connections[1].user_id, "ub");
    let nothing_found = ExtractionError {
        path: "s.json".to_string(),
        message: "missing required field: data source, user id, provider".to_string(),
    };
    // The line with the marker and the line of `CConnection` are relevant
    // and hold no key; the line of `Other` and the closing brace are not.
    assert_eq!(errors, vec![nothing_found.clone(), nothing_found]);
}

#[test]
fn json_member_line_without_provider_is_an_error() {
    let element = r#""DefaultConnection": "Data Source=db2; User Id=dvrpc""#;
    let (connections, errors) = extract_from_json(element, "appsettings.json");
    assert_eq!(connections, Vec::new());
    assert_eq!(
        errors,
        vec![ExtractionError {
            path: "appsettings.json".to_string(),
            message: "missing required field: provider".to_string(),
        }]
    );
    assert_eq!(extract_from_json_line(element, "appsettings.json"), Err(errors[0].clone()));
}

#[test]
fn json_member_line_alone_resolves() {
    let element = r#""A": "Data Source=a;User Id=u;Provider=p""#;
    let (connections, errors) = extract_from_json(element, "s.json");
    assert_eq!(connections.len(), 1);
    assert_eq!(connections[0].data_source, "a");
    assert_eq!(connections[0].user_id, "u");
    assert_eq!(connections[0].provider, "p");
    assert!(errors.is_empty());
}

#[test]
fn json_block_on_one_line_is_one_candidate() {
    let block = r#"ConnectionStrings": {"A": "Data Source=a;User Id=u;Provider=p"}"#;
    let (connections, errors) = extract_from_json(block, "s.json");
    assert_eq!(connections, Vec::new());
    assert_eq!(
        errors,
        vec![ExtractionError {
            path: "s.json".to_string(),
            message: "missing required field: data source".to_string(),
        }]
    );
}

#[test]
fn json_lines_resolve_one_by_one() {
    let parts = [
        "{",
        r#""Default": "Data Source=d;User Id=u;Provider=p","#,
        r#""BrokenConnection": "Data Source=d""#,
        "",
        "ConnectionStrings\": {",
        "  }\r",
        r#""Other": "Provider=p;User Id=u""#,
    ];
    for a in parts {
        for b in parts {
            let (mut connections, mut errors) = extract_from_json(a, "f.json");
            let (more_connections, more_errors) = extract_from_json(b, "f.json");
            connections.extend(more_connections);
            errors.extend(more_errors);
            let whole = format!("{a}\n{b}");
            assert_eq!(extract_from_json(&whole, "f.json"), (connections, errors));
        }
    }
    let (connections, errors) = extract_from_json("{\n\"X\": \"Provider=p;Data Source=d;User Id=u\"", "f");
    assert_eq!(connections.len(), 1);
    assert!(errors.is_empty());
}

#[test]
fn json_element_without_relevant_line_gives_nothing() {
    assert_eq!(extract_from_json("{\n  \"a\": 1\n}", "s.json"), (Vec::new(), Vec::new()));
    assert_eq!(extract_from_json("", "s.json"), (Vec::new(), Vec::new()));
    assert_eq!(extract_from_json("\n \n", "s.json"), (Vec::new(), Vec::new()));
}

#[test]
fn locate_gives_the_last_value_of_a_role() {
    let fields = vec![
        field("Provider", "first"),
        field("password", "secret"),
        field(" PROVIDERNAME ", "second"),
        field("providers", "third"),
    ];
    assert_eq!(locate(&fields, KeyRole::Provider), Some("second".to_string()));
    assert_eq!(locate(&fields, KeyRole::DataSource), None);
    assert_eq!(locate(&fields, KeyRole::Unrecognized), Some("third".to_string()));
    assert_eq!(locate(&Vec::new(), KeyRole::UserId), None);
}

#[test]
fn resolve_applies_the_policy_to_fields() {
    let all = vec![field("data source", "d"), field("user id", ""), field("provider", "p")];
    assert_eq!(
        resolve("x", &all),
        Ok(Some(Connection {
            path: "x".to_string(),
            data_source: "d".to_string(),
            user_id: "".to_string(),
            provider: "p".to_string(),
        }))
    );
    let none: Vec<Field> = Vec::new();
    assert_eq!(
        resolve("x", &none),
        Err(ExtractionError {
            path: "x".to_string(),
            message: "missing required field: data source, user id, provider".to_string(),
        })
    );
}

#[test]
fn wrapping_of_a_literal_does_not_matter() {
    let body = "Connect Timeout=5; Data Source = db ;User Id=me;Provider=\"P\"";
    let bare = extract_from_asp_classic(body, "f");
    let quoted = extract_from_asp_classic(&format!("\"{body}\""), "f");
    let parenthesized = extract_from_asp_classic(&format!("(\"{body}\")"), "f");
    assert_eq!(
        bare,
        Ok(Some(Connection {
            path: "f".to_string(),
            data_source: "db".to_string(),
            user_id: "me".to_string(),
            provider: "P".to_string(),
        }))
    );
    assert_eq!(quoted, bare);
    assert_eq!(parenthesized, bare);
    assert_eq!(extract_from_asp_classic("\"(\"x\")\"", "f"), Ok(None));
    assert_eq!(
        extract_from_asp_classic("(\"provider\")", "f"),
        extract_from_asp_classic("\"provider\"", "f")
    );
}

#[test]
fn provider_synonym_can_replace_inside_a_fragment() {
    let keys = ["provider", "Provider", "PROVIDER", " providerName", "Providername\t", "providername"];
    let frames = [
        ("", "Z"),
        ("Data Source=d;User Id=u;", "Z"),
        ("Data Source=d;", " Z ;User Id=u"),
        ("(\"User Id=u;Data Source=d;", "\"Z\";\")"),
        ("\"", "Z;User Id=u\""),
        ("junk;;x=1;", "a=b;Provider=later;Data Source=d;User Id=u"),
    ];
    for (before, after) in frames {
        let expected = extract_from_asp_classic(&format!("{before}provider={after}"), "f.asp");
        assert!(expected != Ok(None));
        for key in keys {
            let got = extract_from_asp_classic(&format!("{before}{key}={after}"), "f.asp");
            assert_eq!(got, expected, "{before:?} {key:?} {after:?}");
        }
    }
    let c = extract_from_asp_classic("Data Source=d;ProviderName= Z ;User Id=u", "f").unwrap().unwrap();
    assert_eq!(c.provider, "Z");
}
