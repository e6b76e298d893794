use ell_http::replay::{
    replay_bool, replay_callback, replay_callback_context, replay_last_error, replay_pointer,
    replay_request_handle, replay_struct, replay_u32, row_is_integer, apply_context_update, ContextUpdate, LastError, StructWrite,
};
use ell_http::values::{buffer_value, callback_value, pointer_value, u32_pointer_value, Encoding, LogValue, RowValue};

fn stored(v: LogValue) -> RowValue {
    match v {
        LogValue::Null => RowValue::Null,
        LogValue::Integer(i) => RowValue::Integer(i),
        LogValue::Text(t) => RowValue::Text(t),
    }
}

#[test]
fn replay_u32_writes_recorded_value() {
    assert_eq!(replay_u32(true, &RowValue::Integer(512)), Some(512));
    assert_eq!(replay_u32(true, &RowValue::Integer(0x1_0000_0005)), Some(5));
    assert_eq!(replay_u32(true, &RowValue::Null), Some(0));
    assert_eq!(replay_u32(false, &RowValue::Integer(512)), None);
}

#[test]
fn replay_pointer_and_callback() {
    assert_eq!(replay_pointer(&RowValue::Integer(0xCAFE)), 0xCAFE);
    assert_eq!(replay_pointer(&RowValue::Null), 0);
    assert_eq!(replay_pointer(&RowValue::Text("x".to_string())), 0);
    assert_eq!(replay_callback(&RowValue::Integer(0x4000)), Some(0x4000));
    assert_eq!(replay_callback(&RowValue::Null), None);
}

#[test]
fn replay_bool_nonzero_is_success() {
    assert!(replay_bool(&RowValue::Integer(1)));
    assert!(replay_bool(&RowValue::Integer(-7)));
    assert!(!replay_bool(&RowValue::Integer(0)));
    assert!(!replay_bool(&RowValue::Real));
}

#[test]
fn replay_last_error_for_failed_header_query() {
    assert_eq!(replay_last_error(&RowValue::Integer(0), &RowValue::Null), Some(LastError::InsufficientBuffer));
    assert_eq!(
        replay_last_error(&RowValue::Integer(0), &RowValue::Text("x".to_string())),
        Some(LastError::HeaderNotFound)
    );
    assert_eq!(replay_last_error(&RowValue::Integer(1), &RowValue::Null), None);
    assert_eq!(replay_last_error(&RowValue::Null, &RowValue::Null), None);
}

#[test]
fn replay_callback_context_follows_context_option() {
    assert_eq!(replay_callback_context(&RowValue::Integer(45), &RowValue::Integer(77), 45), ContextUpdate::SetTo(77));
    assert_eq!(replay_callback_context(&RowValue::Integer(45), &RowValue::Null, 45), ContextUpdate::SetTo(0));
    // too few bytes for a context value, or no base64 at all
    assert_eq!(
        replay_callback_context(&RowValue::Integer(45), &RowValue::Text("AA==".to_string()), 45),
        ContextUpdate::Keep
    );
    assert_eq!(
        replay_callback_context(&RowValue::Integer(45), &RowValue::Text("!!".to_string()), 45),
        ContextUpdate::Keep
    );
    assert_eq!(replay_callback_context(&RowValue::Integer(46), &RowValue::Integer(77), 45), ContextUpdate::Untouched);
    assert_eq!(replay_callback_context(&RowValue::Null, &RowValue::Integer(77), 45), ContextUpdate::Untouched);
}

#[test]
fn request_handle_from_integer() {
    assert!(row_is_integer(&RowValue::Integer(9)));
    assert!(!row_is_integer(&RowValue::Null));
    assert_eq!(replay_request_handle(&RowValue::Integer(0x1000)), 0x1000);
}

#[test]
fn scalar_round_trips() {
    for x in [0u32, 1, 4096, u32::MAX] {
        assert_eq!(replay_u32(true, &stored(u32_pointer_value(Some(x)))), Some(x));
    }
    for p in [0usize, 1, 0xDEAD_BEEF, usize::MAX] {
        assert_eq!(replay_pointer(&stored(pointer_value(p))), p);
    }
    for cb in [None, Some(0x40_1000usize), Some(usize::MAX)] {
        assert_eq!(replay_callback(&stored(callback_value(cb))), cb);
    }
    for flag in [0i32, 1, -1] {
        assert_eq!(replay_bool(&RowValue::Integer(flag as i64)), flag != 0);
    }
}

#[test]
fn replay_struct_writes_bytes_or_default() {
    assert_eq!(replay_struct(true, &RowValue::Text("AQID".to_string()), 2), StructWrite::Bytes(vec![1, 2]));
    assert_eq!(replay_struct(true, &RowValue::Text("AQID".to_string()), 3), StructWrite::Bytes(vec![1, 2, 3]));
    assert_eq!(replay_struct(true, &RowValue::Null, 8), StructWrite::Default);
    assert_eq!(replay_struct(false, &RowValue::Text("AQID".to_string()), 8), StructWrite::Nothing);
}

#[test]
fn replay_callback_context_reads_recorded_buffer() {
    let ctx: usize = 0x1234_5678;
    let bytes = ctx.to_le_bytes();
    let recorded = match buffer_value(Some(&bytes[..]), Encoding::Base64) {
        LogValue::Text(t) => RowValue::Text(t),
        other => panic!("unexpected {:?}", other),
    };
    let update = replay_callback_context(&RowValue::Integer(45), &recorded, 45);
    assert_eq!(update, ContextUpdate::SetTo(ctx));
    assert_eq!(apply_context_update(None, update), Some(ctx));
    // extra bytes after the value are not read
    let mut longer = bytes.to_vec();
    longer.push(0xFF);
    let recorded = match buffer_value(Some(&longer[..]), Encoding::Base64) {
        LogValue::Text(t) => RowValue::Text(t),
        other => panic!("unexpected {:?}", other),
    };
    assert_eq!(replay_callback_context(&RowValue::Integer(45), &recorded, 45), ContextUpdate::SetTo(ctx));
}

#[test]
fn apply_context_update_creates_only_for_context_option() {
    assert_eq!(apply_context_update(None, ContextUpdate::Untouched), None);
    assert_eq!(apply_context_update(Some(9), ContextUpdate::Untouched), Some(9));
    assert_eq!(apply_context_update(None, ContextUpdate::Keep), Some(0));
    assert_eq!(apply_context_update(Some(9), ContextUpdate::Keep), Some(9));
    assert_eq!(apply_context_update(Some(9), ContextUpdate::SetTo(4)), Some(4));
}
