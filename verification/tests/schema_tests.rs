use ell_http::schema::{ArgColumn, FnSchema};
use ell_http::values::LogValue;

fn col(name: &str, ty: &str, indexed: bool) -> ArgColumn {
    ArgColumn { name: name.to_string(), column_type: ty.to_string(), indexed }
}

fn connect_schema() -> FnSchema {
    FnSchema {
        name: "ell_http_connect".to_string(),
        args: vec![
            col("hsession", "INTEGER", true),
            col("pswzservername", "TEXT", true),
            col("nserverport", "INTEGER", true),
            col("dwreserved", "INTEGER", false),
        ],
        result_type: "INTEGER".to_string(),
    }
}

#[test]
fn create_table_sql_lists_columns() {
    assert_eq!(
        connect_schema().create_table_sql(),
        "CREATE TABLE IF NOT EXISTS ell_http_connect (id INTEGER PRIMARY KEY, created_at INTEGER NOT NULL, hsession INTEGER, pswzservername TEXT, nserverport INTEGER, dwreserved INTEGER, result INTEGER, consumed BOOLEAN DEFAULT FALSE NOT NULL)"
    );
}

#[test]
fn create_index_sql_over_indexed_columns() {
    assert_eq!(
        connect_schema().create_index_sql(),
        Some("CREATE INDEX IF NOT EXISTS idx_ell_http_connect ON ell_http_connect( hsession, pswzservername, nserverport)".to_string())
    );
    let mut s = connect_schema();
    for a in s.args.iter_mut() {
        a.indexed = false;
    }
    assert_eq!(s.create_index_sql(), None);
}

#[test]
fn reset_sql_clears_consumed() {
    assert_eq!(connect_schema().reset_sql(), "UPDATE ell_http_connect SET consumed = 0");
}

#[test]
fn replay_query_sql_matches_indexed_columns() {
    let q = connect_schema().replay_query_sql();
    assert_eq!(
        q,
        "UPDATE ell_http_connect SET consumed = true WHERE id = (SELECT id FROM ell_http_connect WHERE consumed IS FALSE  AND hsession IS ? AND pswzservername IS ? AND nserverport IS ? ORDER BY id ASC LIMIT 1) RETURNING hsession, pswzservername, nserverport, dwreserved, result"
    );
    assert_eq!(q.matches('?').count(), 3);
}

#[test]
fn replay_query_params_take_indexed_values_in_order() {
    let values = vec![
        LogValue::Integer(7),
        LogValue::Text("example.com".to_string()),
        LogValue::Integer(443),
        LogValue::Integer(0),
    ];
    let schema = connect_schema();
    let params = schema.replay_query_params(values);
    assert_eq!(
        params,
        vec![LogValue::Integer(7), LogValue::Text("example.com".to_string()), LogValue::Integer(443)]
    );
    assert_eq!(params.len(), schema.replay_query_sql().matches('?').count());
}

#[test]
fn replay_query_params_skip_unindexed() {
    let schema = FnSchema {
        name: "ell_http_set_option".to_string(),
        args: vec![
            col("hinternet", "INTEGER", true),
            col("dwoption", "INTEGER", true),
            col("lpbuffer", "TEXT", false),
            col("dwbufferlength", "INTEGER", true),
        ],
        result_type: "INTEGER".to_string(),
    };
    let values = vec![LogValue::Integer(1), LogValue::Integer(45), LogValue::Null, LogValue::Integer(8)];
    assert_eq!(
        schema.replay_query_params(values),
        vec![LogValue::Integer(1), LogValue::Integer(45), LogValue::Integer(8)]
    );
}
