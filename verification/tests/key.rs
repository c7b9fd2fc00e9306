use db_connections::key::{name_of_role, normalize_key, KeyRole};

#[test]
fn data_source_key_is_recognised() {
    for key in ["data source", "Data Source", "DATA SOURCE", "  dAtA sOuRcE\t"] {
        assert_eq!(normalize_key(key), KeyRole::DataSource);
    }
}

#[test]
fn user_id_key_is_recognised() {
    for key in ["user id", "User Id", "User ID", "\r\nUSER ID "] {
        assert_eq!(normalize_key(key), KeyRole::UserId);
    }
}

#[test]
fn provider_key_and_its_synonym_are_recognised() {
    for key in ["provider", "Provider", "providerName", "Providername", "ProviderName", "providername", " PROVIDER "] {
        assert_eq!(normalize_key(key), KeyRole::Provider);
    }
}

#[test]
fn other_keys_are_unrecognised() {
    for key in [
        "", " ", "Password", "Language", "user id 2", "the provider", "provider name",
        "datasource", "data  source", "userid", "connectionString", "data source=", "\"provider\"",
        "provider\u{212a}", "d\u{e4}ta source",
    ] {
        assert_eq!(normalize_key(key), KeyRole::Unrecognized);
    }
}

#[test]
fn roles_have_names() {
    assert_eq!(name_of_role(KeyRole::DataSource), "data source");
    assert_eq!(name_of_role(KeyRole::UserId), "user id");
    assert_eq!(name_of_role(KeyRole::Provider), "provider");
    assert_eq!(name_of_role(KeyRole::Unrecognized), "unrecognized");
}
