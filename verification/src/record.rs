//! Recording a call: the log item that a hook queues, and the statements
//! and log line that the logger makes of it.
use vstd::prelude::*;
use crate::text::{i64_decimal, int_decimal, u64_decimal, value_debug, value_debug_text};
use crate::values::{LogValue, LogValueView, join_comma};

verus! {

/// One recorded call: the table of its function and its arguments, each with
/// the column it goes to.
pub struct LogItem {
    pub table: String,
    pub args: Vec<(String, LogValue)>,
}

/// What the logger does with a log item once the master log has given it an
/// id: the line it writes to the log file, and the statement, with its
/// arguments, that stores the call in the function's own table.
pub struct RecordStatement {
    pub line: String,
    pub sql: String,
    pub args: Vec<LogValue>,
}

/// The views of the column names of a log item's arguments.
pub open spec fn arg_names(args: Seq<(String, LogValue)>) -> Seq<Seq<char>> {
    Seq::new(args.len(), |i: int| args[i].0@)
}

/// The views of the values of a log item's arguments.
pub open spec fn arg_values(args: Seq<(String, LogValue)>) -> Seq<LogValueView> {
    Seq::new(args.len(), |i: int| args[i].1@)
}

/// `, name=value` for each argument, the value in debug form.
pub open spec fn arg_entries(args: Seq<(String, LogValue)>) -> Seq<char>
    decreases args.len(),
{
    if args.len() == 0 {
        seq![]
    } else {
        arg_entries(args.drop_last()) + ", "@ + args.last().0@ + "="@ + value_debug_text(
            args.last().1@,
        )
    }
}

/// The log shows each argument, in order, as `, name=` and the debug form
/// of that argument's own value, whatever the value is (a null one as
/// `Null`); the insert statement names its column and adds one parameter.
pub proof fn lemma_arg_entries_per_argument(args: Seq<(String, LogValue)>, name: String, value: LogValue)
    ensures
        arg_entries(Seq::<(String, LogValue)>::empty()) == Seq::<char>::empty(),
        arg_entries(args.push((name, value))) == arg_entries(args) + ", "@ + name@ + "="@
            + value_debug_text(value@),
        column_entries(args.push((name, value))) == column_entries(args) + ", "@ + name@,
        placeholder_entries(args.push((name, value)).len()) == placeholder_entries(args.len())
            + ", ?"@,
{
    assert(args.push((name, value)).drop_last() =~= args);
}

/// `, name` for each argument.
pub open spec fn column_entries(args: Seq<(String, LogValue)>) -> Seq<char>
    decreases args.len(),
{
    if args.len() == 0 {
        seq![]
    } else {
        column_entries(args.drop_last()) + ", "@ + args.last().0@
    }
}

/// `, ?` repeated `n` times.
pub open spec fn placeholder_entries(n: nat) -> Seq<char>
    decreases n,
{
    if n == 0 {
        seq![]
    } else {
        placeholder_entries((n - 1) as nat) + ", ?"@
    }
}

/// The text of the parameters column of the master log: the entries of the
/// arguments without the leading ", ".
pub open spec fn master_params_text(args: Seq<(String, LogValue)>) -> Seq<char> {
    arg_entries(args).skip(2)
}

/// The line written to the log file for a recorded call.
pub open spec fn record_line(table: Seq<char>, args: Seq<(String, LogValue)>, timestamp: int, id: int) -> Seq<char> {
    table + "["@ + int_decimal(id) + "]: created_at: "@ + int_decimal(timestamp) + ", "@ + arg_entries(args)
}

/// The statement that stores a recorded call in its function's table.
pub open spec fn record_sql(table: Seq<char>, args: Seq<(String, LogValue)>) -> Seq<char> {
    "INSERT INTO "@ + table + " ("@ + "id, created_at"@ + column_entries(args) + ") VALUES ("@
        + "?, ?"@ + placeholder_entries(args.len()) + ")"@
}

/// Builds the entries of the arguments, the column list and the placeholder
/// list, one argument at a time.
fn entries(args: &Vec<(String, LogValue)>) -> (res: (String, String, String))
    ensures
        res.0@ == arg_entries(args@),
        res.1@ == column_entries(args@),
        res.2@ == placeholder_entries(args@.len()),
{
    let mut line = String::new();
    let mut cols = String::new();
    let mut marks = String::new();
    let mut i: usize = 0;
    while i < args.len()
        invariant
            0 <= i <= args@.len(),
            line@ == arg_entries(args@.take(i as int)),
            cols@ == column_entries(args@.take(i as int)),
            marks@ == placeholder_entries(i as nat),
        decreases args.len() - i,
    {
        let (name, value) = &args[i];
        line.append(", ");
        line.append(name.as_str());
        line.append("=");
        line.append(value_debug(value).as_str());
        cols.append(", ");
        cols.append(name.as_str());
        marks.append(", ?");
        assert(args@.take(i + 1).drop_last() =~= args@.take(i as int));
        assert(args@.take(i + 1).last() == args@[i as int]);
        assert(line@ =~= arg_entries(args@.take(i + 1)));
        assert(cols@ =~= column_entries(args@.take(i + 1)));
        assert(marks@ =~= placeholder_entries((i + 1) as nat));
        i = i + 1;
    }
    assert(args@.take(args@.len() as int) =~= args@);
    (line, cols, marks)
}

proof fn lemma_arg_entries_start(args: Seq<(String, LogValue)>)
    requires
        args.len() > 0,
    ensures
        arg_entries(args).len() >= 2,
        arg_entries(args) == ", "@ + arg_entries(args).skip(2),
    decreases args.len(),
{
    reveal_strlit(", ");
    if args.len() == 1 {
        assert(args.drop_last().len() == 0);
        assert(arg_entries(args.drop_last()) == Seq::<char>::empty());
    } else {
        lemma_arg_entries_start(args.drop_last());
    }
    assert(arg_entries(args) =~= ", "@ + arg_entries(args).skip(2));
}

/// The parameters column of the master log is the argument entries of the
/// log line with only their leading ", " taken off, and the log line ends
/// with those entries.
pub proof fn lemma_master_params_are_line_entries(
    table: Seq<char>,
    args: Seq<(String, LogValue)>,
    timestamp: int,
    id: int,
)
    requires
        args.len() > 0,
    ensures
        ", "@ + master_params_text(args) == arg_entries(args),
        record_line(table, args, timestamp, id).len() >= arg_entries(args).len(),
        record_line(table, args, timestamp, id).skip(
            record_line(table, args, timestamp, id).len() - arg_entries(args).len(),
        ) == arg_entries(args),
{
    lemma_arg_entries_start(args);
    let line = record_line(table, args, timestamp, id);
    let e = arg_entries(args);
    assert(line.skip(line.len() - e.len()) =~= e);
}

/// The values that the master log row of a recorded call holds: the time
/// of the call, the function's table, and its arguments as text.
pub fn master_log_params(item: &LogItem, timestamp: u64) -> (params: Vec<LogValue>)
    requires
        timestamp <= i64::MAX,
        item.args@.len() > 0,
    ensures
        params@.len() == 3,
        params@[0]@ == LogValueView::Integer(timestamp as i64),
        params@[1]@ == LogValueView::Text(item.table@),
        params@[2]@ == LogValueView::Text(master_params_text(item.args@)),
{
    let (line, _cols, _marks) = entries(&item.args);
    proof {
        lemma_arg_entries_start(item.args@);
    }
    let tail = line.as_str().substring_char(2, line.as_str().unicode_len());
    let mut params: Vec<LogValue> = Vec::new();
    params.push(LogValue::Integer(timestamp as i64));
    params.push(LogValue::Text(item.table.clone()));
    params.push(LogValue::Text(String::from_str(tail)));
    params
}


/// What the logger writes and executes for a recorded call once the master
/// log has given it the id `id`: the log line, and the insert statement
/// with the id, the time and the argument values.
pub fn record_statement(item: &LogItem, timestamp: u64, id: i64) -> (st: RecordStatement)
    requires
        timestamp <= i64::MAX,
    ensures
        st.line@ == record_line(item.table@, item.args@, timestamp as int, id as int),
        st.sql@ == record_sql(item.table@, item.args@),
        st.args@.len() == item.args@.len() + 2,
        st.args@[0]@ == LogValueView::Integer(id),
        st.args@[1]@ == LogValueView::Integer(timestamp as i64),
        forall|i: int| 0 <= i < item.args@.len() ==> #[trigger] st.args@[i + 2]@ == item.args@[i].1@,
{
    let (entries_text, cols, marks) = entries(&item.args);
    let mut line = item.table.clone();
    line.append("[");
    line.append(i64_decimal(id).as_str());
    line.append("]: created_at: ");
    line.append(u64_decimal(timestamp).as_str());
    line.append(", ");
    line.append(entries_text.as_str());
    let mut sql = String::from_str("INSERT INTO ");
    sql.append(item.table.as_str());
    sql.append(" (");
    sql.append("id, created_at");
    sql.append(cols.as_str());
    sql.append(") VALUES (");
    sql.append("?, ?");
    sql.append(marks.as_str());
    sql.append(")");
    let mut args: Vec<LogValue> = Vec::new();
    args.push(LogValue::Integer(id));
    args.push(LogValue::Integer(timestamp as i64));
    let mut i: usize = 0;
    while i < item.args.len()
        invariant
            0 <= i <= item.args@.len(),
            args@.len() == i + 2,
            args@[0]@ == LogValueView::Integer(id),
            args@[1]@ == LogValueView::Integer(timestamp as i64),
            forall|j: int| 0 <= j < i ==> #[trigger] args@[j + 2]@ == item.args@[j].1@,
        decreases item.args.len() - i,
    {
        args.push(item.args[i].1.copy());
        i = i + 1;
    }
    RecordStatement { line, sql, args }
}


/// The columns that the insert statement of a recorded call names: the id,
/// the time, then one per argument.
pub open spec fn record_columns(args: Seq<(String, LogValue)>) -> Seq<Seq<char>> {
    seq!["id"@, "created_at"@] + arg_names(args)
}

/// `n` placeholders.
pub open spec fn record_marks(n: nat) -> Seq<Seq<char>> {
    Seq::new(n, |i: int| "?"@)
}

proof fn lemma_join_push(parts: Seq<Seq<char>>, x: Seq<char>)
    requires
        parts.len() >= 1,
    ensures
        join_comma(parts.push(x)) == join_comma(parts) + ", "@ + x,
{
    assert(parts.push(x).drop_last() =~= parts);
}

proof fn lemma_columns_text(args: Seq<(String, LogValue)>)
    ensures
        "id, created_at"@ + column_entries(args) == join_comma(record_columns(args)),
    decreases args.len(),
{
    if args.len() == 0 {
        reveal_strlit("id, created_at");
        reveal_strlit("id");
        reveal_strlit("created_at");
        reveal_strlit(", ");
        let cols = record_columns(args);
        assert(cols =~= seq!["id"@].push("created_at"@));
        lemma_join_push(seq!["id"@], "created_at"@);
        assert(join_comma(seq!["id"@]) == "id"@);
        assert("id, created_at"@ + column_entries(args) =~= "id"@ + ", "@ + "created_at"@);
    } else {
        let prev = args.drop_last();
        lemma_columns_text(prev);
        assert(record_columns(args) =~= record_columns(prev).push(args.last().0@));
        lemma_join_push(record_columns(prev), args.last().0@);
        assert("id, created_at"@ + column_entries(args) =~= "id, created_at"@ + column_entries(prev)
            + ", "@ + args.last().0@);
    }
}

proof fn lemma_marks_text(n: nat)
    ensures
        "?, ?"@ + placeholder_entries(n) == join_comma(record_marks(n + 2)),
    decreases n,
{
    reveal_strlit("?, ?");
    reveal_strlit("?");
    reveal_strlit(", ");
    reveal_strlit(", ?");
    if n == 0 {
        assert(record_marks(2) =~= seq!["?"@].push("?"@));
        lemma_join_push(seq!["?"@], "?"@);
        assert(join_comma(seq!["?"@]) == "?"@);
        assert("?, ?"@ + placeholder_entries(n) =~= "?"@ + ", "@ + "?"@);
    } else {
        lemma_marks_text((n - 1) as nat);
        assert(record_marks(n + 2) =~= record_marks((n - 1 + 2) as nat).push("?"@));
        lemma_join_push(record_marks((n - 1 + 2) as nat), "?"@);
        assert("?, ?"@ + placeholder_entries(n) =~= "?, ?"@ + placeholder_entries((n - 1) as nat)
            + ", "@ + "?"@);
    }
}

/// The insert statement of a recorded call names as many columns as it
/// has placeholders, one per value that `record_statement` binds: the id,
/// the time, and each argument.
pub proof fn lemma_record_columns_match_values(table: Seq<char>, args: Seq<(String, LogValue)>)
    ensures
        record_sql(table, args) == "INSERT INTO "@ + table + " ("@ + join_comma(record_columns(args))
            + ") VALUES ("@ + join_comma(record_marks(args.len() + 2)) + ")"@,
        record_columns(args).len() == args.len() + 2,
        record_marks(args.len() + 2).len() == args.len() + 2,
{
    lemma_columns_text(args);
    lemma_marks_text(args.len());
    assert(record_sql(table, args) =~= "INSERT INTO "@ + table + " ("@ + join_comma(
        record_columns(args),
    ) + ") VALUES ("@ + join_comma(record_marks(args.len() + 2)) + ")"@);
}


/// The name of the capture database made at the given time stamp.
pub fn capture_db_name(stamp: &str) -> (name: String)
    ensures
        name@ == "capture_"@ + stamp@ + ".db"@,
{
    let mut name = String::from_str("capture_");
    name.append(stamp);
    name.append(".db");
    name
}

/// The log line that reports a new capture database.
pub fn created_message(db_name: &str) -> (msg: String)
    ensures
        msg@ == "INFO: Created "@ + db_name@,
{
    let mut msg = String::from_str("INFO: Created ");
    msg.append(db_name);
    msg
}

/// The log line that reports an error.
pub fn error_line(err: &str) -> (line: String)
    ensures
        line@ == "ERROR: "@ + err@,
{
    let mut line = String::from_str("ERROR: ");
    line.append(err);
    line
}

/// The statement that creates the master log, which holds every recorded
/// call with its time, its function's table and its arguments as text.
pub fn master_log_table_sql() -> (sql: String)
    ensures
        sql@ == "CREATE TABLE IF NOT EXISTS master_log(
            id          INTEGER PRIMARY KEY AUTOINCREMENT,
            created_at  INTEGER NOT NULL,
            table_name  TEXT NOT NULL,
            params      TEXT NOT NULL
        )"@,
{
    String::from_str("CREATE TABLE IF NOT EXISTS master_log(
            id          INTEGER PRIMARY KEY AUTOINCREMENT,
            created_at  INTEGER NOT NULL,
            table_name  TEXT NOT NULL,
            params      TEXT NOT NULL
        )")
}

/// The statement that adds a recorded call to the master log.
pub fn master_log_insert_sql() -> (sql: String)
    ensures
        sql@ == "INSERT INTO master_log (created_at, table_name, params) VALUES (?, ?, ?)"@,
{
    String::from_str("INSERT INTO master_log (created_at, table_name, params) VALUES (?, ?, ?)")
}

} // verus!
