//! The status callback: the notifications that WinHttp sends to the
//! callback a program registered, recorded in their own table and replayed
//! in the order they came.
use vstd::prelude::*;
use crate::record::LogItem;
use crate::replay::{
    ContextUpdate, context_after, context_replay, is_integer, le_bytes, lemma_le_value_of_bytes,
    pointer_replay, stored, word_size,
};
use crate::values::{Encoding, buffer_text};
use crate::radix64::lemma_base64_round_trip;
use vstd::arithmetic::power::pow;
use vstd::arithmetic::div_mod::lemma_small_mod;
use vstd::layout::unsigned_int_max_values;
use crate::text::u64_decimal;
use crate::text::nat_decimal;
use crate::values::{LogValue, LogValueView, RowValue, RowValueView, pointer_log, pointer_value};

verus! {

/// The arguments of one status notification.
#[derive(Clone, Copy, Debug, PartialEq, Eq, Structural)]
pub struct StatusArgs {
    pub hinternet: usize,
    pub status: u32,
    pub info: usize,
    pub info_len: u32,
}

/// The statements that create the status callback table and its index.
pub struct DbSetupFns;

/// The statements that mark the recorded calls unused again.
pub struct DbResetFns;

/// The name of the status callback table.
pub fn status_table() -> (name: String)
    ensures
        name@ == "ell_http_status_callback"@,
{
    String::from_str("ell_http_status_callback")
}

impl DbSetupFns {
    /// The statements that create the table of status notifications and its
    /// index over the handle and the status, in the order they run.
    pub fn ell_http_status_callback() -> (stmts: Vec<String>)
        ensures
            stmts@.len() == 2,
            stmts@[0]@ == "CREATE TABLE IF NOT EXISTS ell_http_status_callback (
                id INTEGER PRIMARY KEY,
                created_at INTEGER NOT NULL,
                hinternet INTEGER,
                dwcontext INTEGER,
                dwinternetstatus INTEGER,
                lpstatusinformation INTEGER,
                dwstatusinformationlength INTEGER,
                result INTEGER,
                consumed BOOLEAN DEFAULT FALSE NOT NULL)"@,
            stmts@[1]@ == "CREATE INDEX IF NOT EXISTS idx_http_status_callback ON ell_http_status_callback (
                hinternet, dwinternetstatus
            )"@,
    {
        let mut stmts: Vec<String> = Vec::new();
        stmts.push(String::from_str("CREATE TABLE IF NOT EXISTS ell_http_status_callback (
                id INTEGER PRIMARY KEY,
                created_at INTEGER NOT NULL,
                hinternet INTEGER,
                dwcontext INTEGER,
                dwinternetstatus INTEGER,
                lpstatusinformation INTEGER,
                dwstatusinformationlength INTEGER,
                result INTEGER,
                consumed BOOLEAN DEFAULT FALSE NOT NULL)"));
        stmts.push(String::from_str("CREATE INDEX IF NOT EXISTS idx_http_status_callback ON ell_http_status_callback (
                hinternet, dwinternetstatus
            )"));
        stmts
    }
}

impl DbResetFns {
    /// The statement that marks every recorded status notification unused.
    pub fn ell_http_status_callback() -> (stmt: String)
        ensures
            stmt@ == "UPDATE ell_http_status_callback SET consumed = 0"@,
    {
        String::from_str("UPDATE ell_http_status_callback SET consumed = 0")
    }

    /// The message that a reset writes with the number of rows it changed.
    pub fn rows_changed_message(n: u64) -> (msg: String)
        ensures
            msg@ == "Rows changed: "@ + nat_decimal(n as nat),
    {
        let mut msg = String::from_str("Rows changed: ");
        msg.append(u64_decimal(n).as_str());
        msg
    }
}

/// The statement that takes the oldest unused notification recorded for a
/// handle and a status, marks it used and returns its arguments.
pub fn status_replay_query() -> (q: String)
    ensures
        q@ == "UPDATE ell_http_status_callback  SET consumed = true WHERE id = (SELECT id FROM ell_http_status_callback  WHERE consumed IS FALSE  AND hinternet IS ?  AND dwinternetstatus IS ?  ORDER BY id ASC LIMIT 1) RETURNING hinternet, dwcontext, dwinternetstatus, lpstatusinformation, dwstatusinformationlength"@,
{
    String::from_str("UPDATE ell_http_status_callback  SET consumed = true WHERE id = (SELECT id FROM ell_http_status_callback  WHERE consumed IS FALSE  AND hinternet IS ?  AND dwinternetstatus IS ?  ORDER BY id ASC LIMIT 1) RETURNING hinternet, dwcontext, dwinternetstatus, lpstatusinformation, dwstatusinformationlength")
}

/// The values bound to the replay query of a notification: the handle, as
/// a pointer is recorded, and the status.
pub fn status_query_params(hinternet: usize, status: u32) -> (params: Vec<LogValue>)
    ensures
        params@.len() == 2,
        params@[0]@ == pointer_log(hinternet),
        params@[1]@ == LogValueView::Integer(status as i64),
{
    let mut params: Vec<LogValue> = Vec::new();
    params.push(pointer_value(hinternet));
    params.push(LogValue::Integer(status as i64));
    params
}

/// Whether a recorded notification can be replayed: its handle, status and
/// length columns hold integers.
pub open spec fn status_row_replayable(
    hinternet: RowValueView,
    status: RowValueView,
    info_len: RowValueView,
) -> bool {
    is_integer(hinternet) && is_integer(status) && is_integer(info_len)
}

/// Whether a recorded notification can be replayed.
pub fn status_row_ok(hinternet: &RowValue, status: &RowValue, info_len: &RowValue) -> (ok: bool)
    ensures
        ok == status_row_replayable(hinternet@, status@, info_len@),
{
    let a = match hinternet {
        RowValue::Integer(_) => true,
        _ => false,
    };
    let b = match status {
        RowValue::Integer(_) => true,
        _ => false,
    };
    let c = match info_len {
        RowValue::Integer(_) => true,
        _ => false,
    };
    a && b && c
}

/// The 32-bit value of a recorded integer column.
pub open spec fn u32_of(value: RowValueView) -> u32 {
    match value {
        RowValueView::Integer(v) => v as u32,
        _ => 0u32,
    }
}

/// The notification to pass to the program's callback, from the columns
/// recorded for it: the handle and the information pointer as addresses
/// (a missing information pointer is null), the status and the length
/// truncated to 32 bits.
pub fn replay_status(hinternet: &RowValue, status: &RowValue, info: &RowValue, info_len: &RowValue) -> (args: StatusArgs)
    requires
        status_row_replayable(hinternet@, status@, info_len@),
    ensures
        args.hinternet == pointer_replay(hinternet@),
        args.status == u32_of(status@),
        args.info == pointer_replay(info@),
        args.info_len == u32_of(info_len@),
{
    let h = match hinternet {
        RowValue::Integer(v) => *v as usize,
        _ => 0,
    };
    let s = match status {
        RowValue::Integer(v) => *v as u32,
        _ => 0,
    };
    let i = match info {
        RowValue::Integer(v) => *v as usize,
        _ => 0,
    };
    let l = match info_len {
        RowValue::Integer(v) => *v as u32,
        _ => 0,
    };
    StatusArgs { hinternet: h, status: s, info: i, info_len: l }
}

/// The log item of a notification passed on to the program's callback with
/// the context `context`.
pub fn status_log_item(args: StatusArgs, context: usize) -> (item: LogItem)
    ensures
        item.table@ == "ell_http_status_callback"@,
        item.args@.len() == 6,
        item.args@[0].0@ == "hinternet"@,
        item.args@[0].1@ == pointer_log(args.hinternet),
        item.args@[1].0@ == "dwcontext"@,
        item.args@[1].1@ == LogValueView::Integer(context as i64),
        item.args@[2].0@ == "dwinternetstatus"@,
        item.args@[2].1@ == LogValueView::Integer(args.status as i64),
        item.args@[3].0@ == "lpstatusinformation"@,
        item.args@[3].1@ == pointer_log(args.info),
        item.args@[4].0@ == "dwstatusinformationlength"@,
        item.args@[4].1@ == LogValueView::Integer(args.info_len as i64),
        item.args@[5].0@ == "result"@,
        item.args@[5].1@ == LogValueView::Null,
        forall|k: int| 0 <= k < 6 ==> #[trigger] item.args@[k].1@ == status_columns(args, context)[k],
{
    let mut a: Vec<(String, LogValue)> = Vec::new();
    a.push((String::from_str("hinternet"), pointer_value(args.hinternet)));
    a.push((String::from_str("dwcontext"), LogValue::Integer(context as i64)));
    a.push((String::from_str("dwinternetstatus"), LogValue::Integer(args.status as i64)));
    a.push((String::from_str("lpstatusinformation"), pointer_value(args.info)));
    a.push((String::from_str("dwstatusinformationlength"), LogValue::Integer(args.info_len as i64)));
    a.push((String::from_str("result"), LogValue::Null));
    LogItem { table: status_table(), args: a }
}


/// What registering a status callback returns to the program: the failure
/// sentinel (all bits set) where WinHttp returned it, and otherwise the
/// callback the program had registered before.
pub open spec fn registration_result(returned: Option<usize>, previous: Option<usize>) -> Option<usize> {
    if returned == Some(usize::MAX) {
        Some(usize::MAX)
    } else {
        previous
    }
}

/// What registering a status callback returns to the program.
pub fn status_callback_result(returned: Option<usize>, previous: Option<usize>) -> (cb: Option<usize>)
    ensures
        cb == registration_result(returned, previous),
{
    match returned {
        Some(a) => {
            if a == usize::MAX {
                Some(usize::MAX)
            } else {
                previous
            }
        },
        None => previous,
    }
}

/// Registering `callback` where `stored_cb` is stored: the callback stored
/// afterwards, and the one stored before.
pub open spec fn installed(stored_cb: Option<usize>, callback: Option<usize>) -> (Option<usize>, Option<usize>) {
    (callback, stored_cb)
}

/// Stores the callback that the program registers, which the hook then
/// calls for each notification, and gives back the one stored before.
pub fn install_status_callback(stored_cb: &mut Option<usize>, callback: Option<usize>) -> (previous: Option<usize>)
    ensures
        (*final(stored_cb), previous) == installed(*old(stored_cb), callback),
{
    let previous = *stored_cb;
    *stored_cb = callback;
    previous
}

/// Two registrations in a row: the second stores its callback and, unless
/// WinHttp reports failure, returns to the program the callback that the
/// first installed.
pub proof fn lemma_second_registration_returns_first(
    stored_cb: Option<usize>,
    first: Option<usize>,
    second: Option<usize>,
    returned: Option<usize>,
)
    requires
        returned != Some(usize::MAX),
    ensures
        installed(installed(stored_cb, first).0, second).0 == second,
        registration_result(returned, installed(installed(stored_cb, first).0, second).1) == first,
{
}

/// The values recorded for a notification, column by column: handle,
/// context, status, information pointer, its length, and the (empty)
/// result.
pub open spec fn status_columns(args: StatusArgs, context: usize) -> Seq<LogValueView> {
    seq![
        pointer_log(args.hinternet),
        LogValueView::Integer(context as i64),
        LogValueView::Integer(args.status as i64),
        pointer_log(args.info),
        LogValueView::Integer(args.info_len as i64),
        LogValueView::Null,
    ]
}

/// A notification recorded and then replayed is passed on with the same
/// handle, status, information pointer and length; and the replay query for
/// it is bound to the handle and status columns it was recorded with. This
/// needs a non-null handle: a null one is recorded as no value, which
/// replay cannot read back.
pub proof fn lemma_status_round_trip(args: StatusArgs, context: usize)
    requires
        args.hinternet != 0,
    ensures
        status_row_replayable(
            stored(status_columns(args, context)[0]),
            stored(status_columns(args, context)[2]),
            stored(status_columns(args, context)[4]),
        ),
        pointer_replay(stored(status_columns(args, context)[0])) == args.hinternet,
        u32_of(stored(status_columns(args, context)[2])) == args.status,
        pointer_replay(stored(status_columns(args, context)[3])) == args.info,
        u32_of(stored(status_columns(args, context)[4])) == args.info_len,
        seq![pointer_log(args.hinternet), LogValueView::Integer(args.status as i64)] == seq![
            status_columns(args, context)[0],
            status_columns(args, context)[2],
        ],
{
    let h = args.hinternet;
    let i = args.info;
    assert((h as i64) as usize == h) by (bit_vector);
    assert((i as i64) as usize == i) by (bit_vector);
}


/// The notification that the hook passes on to the program's callback and
/// records, with its context: the replayed one, with the context that the
/// program set, where replay found one; else the one WinHttp sent, with its
/// own context.
pub open spec fn notification_delivered(
    live: StatusArgs,
    live_context: usize,
    replayed: Option<StatusArgs>,
    stored_context: Option<usize>,
) -> (StatusArgs, usize) {
    match replayed {
        Some(r) => (r, stored_context->0),
        None => (live, live_context),
    }
}

/// The notification that the hook passes on to the program's callback.
pub fn status_to_deliver(
    live: StatusArgs,
    live_context: usize,
    replayed: Option<StatusArgs>,
    stored_context: Option<usize>,
) -> (out: (StatusArgs, usize))
    requires
        replayed is Some ==> stored_context is Some,
    ensures
        out == notification_delivered(live, live_context, replayed, stored_context),
{
    match replayed {
        Some(r) => (r, stored_context.unwrap()),
        None => (live, live_context),
    }
}

/// A context value that the program sets through the context option is
/// recorded as the base64 text of its little-endian bytes. Replaying that
/// call stores the same value, whatever context was stored before, and every
/// replayed notification then reaches the program's callback with it.
pub proof fn lemma_context_round_trip(
    ctx: usize,
    context_option: u32,
    current: Option<usize>,
    live: StatusArgs,
    live_context: usize,
    replayed: StatusArgs,
)
    ensures
        context_replay(
            stored(LogValueView::Integer(context_option as i64)),
            stored(LogValueView::Text(buffer_text(le_bytes(ctx as nat, word_size()), Encoding::Base64))),
            context_option,
        ) == ContextUpdate::SetTo(ctx),
        context_after(current, ContextUpdate::SetTo(ctx)) == Some(ctx),
        notification_delivered(live, live_context, Some(replayed), Some(ctx)) == (replayed, ctx),
{
    let bytes = le_bytes(ctx as nat, word_size());
    lemma_base64_round_trip(bytes);
    lemma_le_value_of_bytes(ctx as nat, word_size());
    unsigned_int_max_values();
    assert(bytes.take(word_size() as int) =~= bytes);
    lemma_small_mod(ctx as nat, pow(256, word_size()) as nat);
}

} // verus!
