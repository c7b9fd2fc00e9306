use db_connections::resolver::{Connection, ExtractionError};
use db_connections::table::{connections_table, errors_table};

fn row(cells: &[&str]) -> Vec<String> {
    cells.iter().map(|c| c.to_string()).collect()
}

#[test]
fn connections_table_has_header_and_rows_in_order() {
    let connections = vec![
        Connection {
            path: "b.config".to_string(),
            data_source: "db2".to_string(),
            user_id: "dvrpc".to_string(),
            provider: "System.OracleClient".to_string(),
        },
        Connection {
            path: "a.asp".to_string(),
            data_source: "".to_string(),
            user_id: "u, \"v\"".to_string(),
            provider: "p".to_string(),
        },
    ];
    assert_eq!(
        connections_table(&connections),
        vec![
            row(&["path", "data source", "user id", "provider"]),
            row(&["b.config", "db2", "dvrpc", "System.OracleClient"]),
            row(&["a.asp", "", "u, \"v\"", "p"]),
        ]
    );
}

#[test]
fn errors_table_has_header_and_rows_in_order() {
    let errors = vec![
        ExtractionError {
            path: "legacy.asp".to_string(),
            message: "missing required field: provider".to_string(),
        },
        ExtractionError { path: "x.json".to_string(), message: "Could not read file (gone)".to_string() },
    ];
    assert_eq!(
        errors_table(&errors),
        vec![
            row(&["path", "error"]),
            row(&["legacy.asp", "missing required field: provider"]),
            row(&["x.json", "Could not read file (gone)"]),
        ]
    );
}

#[test]
fn empty_tables_hold_their_header_only() {
    assert_eq!(connections_table(&Vec::new()), vec![row(&["path", "data source", "user id", "provider"])]);
    assert_eq!(errors_table(&Vec::new()), vec![row(&["path", "error"])]);
}
