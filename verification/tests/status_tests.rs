use ell_http::status::{
    install_status_callback, replay_status, status_callback_result, status_log_item, status_query_params, status_replay_query,
    status_row_ok, status_table, status_to_deliver, DbResetFns, DbSetupFns, StatusArgs,
};
use ell_http::values::{LogValue, RowValue};

#[test]
fn status_query_params_handle_and_status() {
    assert_eq!(status_query_params(0x10, 4), vec![LogValue::Integer(16), LogValue::Integer(4)]);
    assert_eq!(status_query_params(0, 0x400000), vec![LogValue::Null, LogValue::Integer(0x400000)]);
}

#[test]
fn status_replay_query_has_two_params() {
    let q = status_replay_query();
    assert_eq!(q.matches('?').count(), 2);
    assert!(q.starts_with("UPDATE ell_http_status_callback  SET consumed = true"));
    assert!(q.ends_with("RETURNING hinternet, dwcontext, dwinternetstatus, lpstatusinformation, dwstatusinformationlength"));
}

#[test]
fn replay_status_from_row() {
    let h = RowValue::Integer(0x1000);
    let s = RowValue::Integer(0x4000);
    let len = RowValue::Integer(8);
    assert!(status_row_ok(&h, &s, &len));
    assert!(!status_row_ok(&RowValue::Null, &s, &len));
    assert_eq!(
        replay_status(&h, &s, &RowValue::Null, &len),
        StatusArgs { hinternet: 0x1000, status: 0x4000, info: 0, info_len: 8 }
    );
    assert_eq!(replay_status(&h, &s, &RowValue::Integer(0x2000), &len).info, 0x2000);
}

#[test]
fn status_log_item_columns() {
    let item = status_log_item(StatusArgs { hinternet: 0x1000, status: 2, info: 0, info_len: 4 }, 99);
    assert_eq!(item.table, "ell_http_status_callback");
    assert_eq!(
        item.args,
        vec![
            ("hinternet".to_string(), LogValue::Integer(0x1000)),
            ("dwcontext".to_string(), LogValue::Integer(99)),
            ("dwinternetstatus".to_string(), LogValue::Integer(2)),
            ("lpstatusinformation".to_string(), LogValue::Null),
            ("dwstatusinformationlength".to_string(), LogValue::Integer(4)),
            ("result".to_string(), LogValue::Null),
        ]
    );
}

#[test]
fn status_setup_and_reset_statements() {
    let stmts = DbSetupFns::ell_http_status_callback();
    assert_eq!(stmts.len(), 2);
    assert!(stmts[0].starts_with("CREATE TABLE IF NOT EXISTS ell_http_status_callback ("));
    assert!(stmts[1].starts_with("CREATE INDEX IF NOT EXISTS idx_http_status_callback"));
    assert_eq!(DbResetFns::ell_http_status_callback(), "UPDATE ell_http_status_callback SET consumed = 0");
    assert_eq!(DbResetFns::rows_changed_message(12), "Rows changed: 12");
    assert_eq!(status_table(), "ell_http_status_callback");
}

#[test]
fn status_callback_result_keeps_previous() {
    assert_eq!(status_callback_result(Some(usize::MAX), Some(5)), Some(usize::MAX));
    assert_eq!(status_callback_result(Some(3), Some(5)), Some(5));
    assert_eq!(status_callback_result(None, None), None);
}

#[test]
fn status_to_deliver_prefers_replay() {
    let live = StatusArgs { hinternet: 1, status: 2, info: 3, info_len: 4 };
    let rep = StatusArgs { hinternet: 5, status: 6, info: 0, info_len: 0 };
    assert_eq!(status_to_deliver(live, 10, Some(rep), Some(20)), (rep, 20));
    assert_eq!(status_to_deliver(live, 10, None, None), (live, 10));
    assert_eq!(status_to_deliver(live, 10, None, Some(20)), (live, 10));
}

#[test]
fn status_record_then_replay_round_trip() {
    let args = StatusArgs { hinternet: 0xABC0, status: 0x0020_0000, info: 0, info_len: 0 };
    let item = status_log_item(args, 7);
    let stored: Vec<RowValue> = item
        .args
        .into_iter()
        .map(|(_, v)| match v {
            LogValue::Null => RowValue::Null,
            LogValue::Integer(i) => RowValue::Integer(i),
            LogValue::Text(t) => RowValue::Text(t),
        })
        .collect();
    assert!(status_row_ok(&stored[0], &stored[2], &stored[4]));
    assert_eq!(replay_status(&stored[0], &stored[2], &stored[3], &stored[4]), args);
    let key = status_query_params(args.hinternet, args.status);
    assert_eq!(key[0], LogValue::Integer(0xABC0));
    assert_eq!(key[1], LogValue::Integer(0x0020_0000));
}

#[test]
fn second_registration_returns_first_callback() {
    let mut stored: Option<usize> = None;
    let first = install_status_callback(&mut stored, Some(0x1000));
    assert_eq!(first, None);
    assert_eq!(status_callback_result(None, first), None);
    let second = install_status_callback(&mut stored, Some(0x2000));
    assert_eq!(stored, Some(0x2000));
    assert_eq!(status_callback_result(Some(0x3000), second), Some(0x1000));
    // WinHttp's failure marker is passed on instead
    assert_eq!(status_callback_result(Some(usize::MAX), second), Some(usize::MAX));
}
