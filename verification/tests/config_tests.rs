use rmg_tool::config::{
    connection_url, database_name, ConfigValue, APPLIED_VERSIONS_QUERY, DATABASE_KEY,
    POSTGRES_PORT, SECTION,
};

fn text(s: &str) -> ConfigValue {
    ConfigValue::Text(s.to_string())
}

fn table(entries: Vec<(&str, ConfigValue)>) -> ConfigValue {
    ConfigValue::Table(entries.into_iter().map(|(k, v)| (k.to_string(), v)).collect())
}

#[test]
fn config_constants() {
    assert_eq!(SECTION, "development");
    assert_eq!(DATABASE_KEY, "database");
    assert_eq!(POSTGRES_PORT, 5432);
    assert_eq!(APPLIED_VERSIONS_QUERY, "SELECT version FROM schema_migrations ORDER BY version");
}

#[test]
fn connection_url_names_user_port_and_database() {
    assert_eq!(connection_url("alice", "app_development"), "postgres://alice@localhost:5432/app_development");
    assert_eq!(connection_url("", ""), "postgres://@localhost:5432/");
}

#[test]
fn database_name_is_read_from_the_development_section() {
    let documents = vec![table(vec![
        ("test", table(vec![("database", text("app_test"))])),
        ("development", table(vec![("adapter", text("postgresql")), ("database", text("app_dev"))])),
    ])];
    assert_eq!(database_name(&documents), Some("app_dev".to_string()));
}

#[test]
fn database_name_reads_the_first_document_only() {
    let first = table(vec![("development", table(vec![("database", text("one"))]))]);
    let second = table(vec![("development", table(vec![("database", text("two"))]))]);
    assert_eq!(database_name(&vec![first, second]), Some("one".to_string()));
    let empty = table(vec![]);
    let third = table(vec![("development", table(vec![("database", text("three"))]))]);
    assert_eq!(database_name(&vec![empty, third]), None);
}

#[test]
fn database_name_is_missing_where_the_document_names_none() {
    assert_eq!(database_name(&Vec::new()), None);
    assert_eq!(database_name(&vec![ConfigValue::Other]), None);
    assert_eq!(database_name(&vec![text("development")]), None);
    assert_eq!(database_name(&vec![table(vec![("production", table(vec![]))])]), None);
    assert_eq!(database_name(&vec![table(vec![("development", text("database"))])]), None);
    assert_eq!(
        database_name(&vec![table(vec![("development", table(vec![("adapter", text("x"))]))])]),
        None
    );
    assert_eq!(
        database_name(&vec![table(vec![("development", table(vec![("database", ConfigValue::Other)]))])]),
        None
    );
}

#[test]
fn member_finds_the_first_entry_with_the_key() {
    let t = table(vec![("a", text("1")), ("b", text("2")), ("a", text("3"))]);
    assert_eq!(t.member("a").and_then(|v| v.as_text()), Some("1"));
    assert_eq!(t.member("b").and_then(|v| v.as_text()), Some("2"));
    assert!(t.member("c").is_none());
    assert!(text("a").member("a").is_none());
    assert!(ConfigValue::Other.as_text().is_none());
}
