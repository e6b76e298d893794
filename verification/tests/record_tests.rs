use ell_http::record::{
    capture_db_name, created_message, error_line, master_log_insert_sql, master_log_params,
    master_log_table_sql, record_statement, LogItem,
};
use ell_http::values::LogValue;

fn connect_item() -> LogItem {
    LogItem {
        table: "ell_http_connect".to_string(),
        args: vec![
            ("hsession".to_string(), LogValue::Integer(4096)),
            ("pswzservername".to_string(), LogValue::Text("example.com".to_string())),
            ("result".to_string(), LogValue::Integer(8192)),
        ],
    }
}

#[test]
fn master_log_params_of_item() {
    let params = master_log_params(&connect_item(), 1700000000);
    assert_eq!(
        params,
        vec![
            LogValue::Integer(1700000000),
            LogValue::Text("ell_http_connect".to_string()),
            LogValue::Text(
                "hsession=Integer(4096), pswzservername=Text(\"example.com\"), result=Integer(8192)".to_string()
            ),
        ]
    );
}

#[test]
fn record_statement_of_item() {
    let st = record_statement(&connect_item(), 1700000000, 7);
    assert_eq!(
        st.line,
        "ell_http_connect[7]: created_at: 1700000000, , hsession=Integer(4096), pswzservername=Text(\"example.com\"), result=Integer(8192)"
    );
    assert_eq!(
        st.sql,
        "INSERT INTO ell_http_connect (id, created_at, hsession, pswzservername, result) VALUES (?, ?, ?, ?, ?)"
    );
    assert_eq!(
        st.args,
        vec![
            LogValue::Integer(7),
            LogValue::Integer(1700000000),
            LogValue::Integer(4096),
            LogValue::Text("example.com".to_string()),
            LogValue::Integer(8192),
        ]
    );
}

#[test]
fn record_statement_columns_match_values() {
    let st = record_statement(&connect_item(), 5, -1);
    let marks = st.sql.matches('?').count();
    let cols = st.sql.split(") VALUES").next().unwrap().split('(').nth(1).unwrap().split(", ").count();
    assert_eq!(marks, st.args.len());
    assert_eq!(cols, st.args.len());
}

#[test]
fn log_file_texts() {
    assert_eq!(capture_db_name("2024-01-02T03-04-05"), "capture_2024-01-02T03-04-05.db");
    assert_eq!(created_message("capture_x.db"), "INFO: Created capture_x.db");
    assert_eq!(error_line("boom"), "ERROR: boom");
    assert!(master_log_table_sql().starts_with("CREATE TABLE IF NOT EXISTS master_log("));
    assert_eq!(master_log_insert_sql(), "INSERT INTO master_log (created_at, table_name, params) VALUES (?, ?, ?)");
}
