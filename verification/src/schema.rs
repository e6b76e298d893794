//! The tables that hold recorded calls, and the statements that create,
//! reset and read them.
//!
//! Each hooked function has a table of its own: an id, the time of the
//! call, one column per argument, the result, and a flag that replay sets
//! once it has used the row. The arguments marked as indexed are the ones
//! that replay matches a call on.
use vstd::prelude::*;
use crate::values::{LogValue, LogValueView, join_comma};

verus! {

/// A column for one argument of a hooked function.
pub struct ArgColumn {
    pub name: String,
    /// The SQL type of the column.
    pub column_type: String,
    /// Whether replay matches calls on this argument.
    pub indexed: bool,
}

/// The table of a hooked function.
pub struct FnSchema {
    /// The name of the hook, which is also the table's name.
    pub name: String,
    pub args: Vec<ArgColumn>,
    /// The SQL type of the result column.
    pub result_type: String,
}

/// `name type, ` for each argument.
pub open spec fn column_defs(args: Seq<ArgColumn>) -> Seq<char>
    decreases args.len(),
{
    if args.len() == 0 {
        seq![]
    } else {
        column_defs(args.drop_last()) + args.last().name@ + " "@ + args.last().column_type@ + ", "@
    }
}

/// `, name` for each indexed argument.
pub open spec fn index_entries(args: Seq<ArgColumn>) -> Seq<char>
    decreases args.len(),
{
    if args.len() == 0 {
        seq![]
    } else if args.last().indexed {
        index_entries(args.drop_last()) + ", "@ + args.last().name@
    } else {
        index_entries(args.drop_last())
    }
}

/// ` AND name IS ?` for each indexed argument.
pub open spec fn filter_entries(args: Seq<ArgColumn>) -> Seq<char>
    decreases args.len(),
{
    if args.len() == 0 {
        seq![]
    } else if args.last().indexed {
        filter_entries(args.drop_last()) + " AND "@ + args.last().name@ + " IS ?"@
    } else {
        filter_entries(args.drop_last())
    }
}

/// `name, ` for each argument.
pub open spec fn returning_entries(args: Seq<ArgColumn>) -> Seq<char>
    decreases args.len(),
{
    if args.len() == 0 {
        seq![]
    } else {
        returning_entries(args.drop_last()) + args.last().name@ + ", "@
    }
}

/// The names of the indexed arguments, in order.
pub open spec fn indexed_names(args: Seq<ArgColumn>) -> Seq<Seq<char>>
    decreases args.len(),
{
    if args.len() == 0 {
        seq![]
    } else if args.last().indexed {
        indexed_names(args.drop_last()).push(args.last().name@)
    } else {
        indexed_names(args.drop_last())
    }
}

/// The values of the indexed arguments, in order, taken from the values of
/// all the arguments, one per argument.
pub open spec fn indexed_values(args: Seq<ArgColumn>, values: Seq<LogValueView>) -> Seq<LogValueView>
    decreases args.len(),
{
    if args.len() == 0 || values.len() == 0 {
        seq![]
    } else if args.last().indexed {
        indexed_values(args.drop_last(), values.drop_last()).push(values.last())
    } else {
        indexed_values(args.drop_last(), values.drop_last())
    }
}

/// Each argument's indexed flag beside its value.
pub open spec fn flagged_values(args: Seq<ArgColumn>, values: Seq<LogValueView>) -> Seq<(bool, LogValueView)> {
    Seq::new(values.len(), |i: int| (args[i].indexed, values[i]))
}

/// The values of the indexed arguments are the argument values themselves,
/// unchanged and in order, filtered by the arguments' indexed flags.
pub proof fn lemma_indexed_values_filter(args: Seq<ArgColumn>, values: Seq<LogValueView>)
    requires
        args.len() == values.len(),
    ensures
        indexed_values(args, values) == flagged_values(args, values).filter(
            |p: (bool, LogValueView)| p.0,
        ).map_values(|p: (bool, LogValueView)| p.1),
    decreases args.len(),
{
    reveal(Seq::filter);
    let ps = flagged_values(args, values);
    if args.len() == 0 {
        assert(ps.filter(|p: (bool, LogValueView)| p.0) =~= Seq::<(bool, LogValueView)>::empty());
        assert(ps.filter(|p: (bool, LogValueView)| p.0).map_values(|p: (bool, LogValueView)| p.1)
            =~= Seq::<LogValueView>::empty());
    } else {
        let a0 = args.drop_last();
        let v0 = values.drop_last();
        lemma_indexed_values_filter(a0, v0);
        assert(flagged_values(a0, v0) =~= ps.drop_last());
        let sub = ps.drop_last().filter(|p: (bool, LogValueView)| p.0);
        assert(ps.last() == (args.last().indexed, values.last()));
        if args.last().indexed {
            assert(ps.filter(|p: (bool, LogValueView)| p.0) == sub.push(ps.last()));
            assert(sub.push(ps.last()).map_values(|p: (bool, LogValueView)| p.1) =~= sub.map_values(
                |p: (bool, LogValueView)| p.1,
            ).push(values.last()));
        } else {
            assert(ps.filter(|p: (bool, LogValueView)| p.0) == sub);
        }
    }
}

/// Each argument's column is declared with its name and its own type,
/// whether it is indexed or not, in the order of the arguments.
pub proof fn lemma_column_defs_per_argument(args: Seq<ArgColumn>, a: ArgColumn)
    ensures
        column_defs(Seq::<ArgColumn>::empty()) == Seq::<char>::empty(),
        column_defs(args.push(a)) == column_defs(args) + a.name@ + " "@ + a.column_type@ + ", "@,
{
    assert(args.push(a).drop_last() =~= args);
}

/// What each argument adds to the replay query and the index: an indexed
/// one is matched with ` AND name IS ?` and listed in the index and among
/// the indexed names; every one is returned by name; an argument that is not
/// indexed adds nothing to the match or the index.
pub proof fn lemma_query_entries_per_argument(args: Seq<ArgColumn>, a: ArgColumn)
    ensures
        filter_entries(Seq::<ArgColumn>::empty()) == Seq::<char>::empty(),
        index_entries(Seq::<ArgColumn>::empty()) == Seq::<char>::empty(),
        returning_entries(Seq::<ArgColumn>::empty()) == Seq::<char>::empty(),
        indexed_names(Seq::<ArgColumn>::empty()) == Seq::<Seq<char>>::empty(),
        returning_entries(args.push(a)) == returning_entries(args) + a.name@ + ", "@,
        a.indexed ==> filter_entries(args.push(a)) == filter_entries(args) + " AND "@ + a.name@ + " IS ?"@,
        a.indexed ==> index_entries(args.push(a)) == index_entries(args) + ", "@ + a.name@,
        a.indexed ==> indexed_names(args.push(a)) == indexed_names(args).push(a.name@),
        !a.indexed ==> filter_entries(args.push(a)) == filter_entries(args),
        !a.indexed ==> index_entries(args.push(a)) == index_entries(args),
        !a.indexed ==> indexed_names(args.push(a)) == indexed_names(args),
{
    assert(args.push(a).drop_last() =~= args);
}

proof fn lemma_indexed_values_len(args: Seq<ArgColumn>, values: Seq<LogValueView>)
    requires
        args.len() == values.len(),
    ensures
        indexed_values(args, values).len() == indexed_names(args).len(),
    decreases args.len(),
{
    if args.len() > 0 {
        lemma_indexed_values_len(args.drop_last(), values.drop_last());
    }
}

/// The statement that creates the table of a hooked function.
pub open spec fn create_table_text(s: FnSchema) -> Seq<char> {
    "CREATE TABLE IF NOT EXISTS "@ + s.name@ + " ("@ + "id INTEGER PRIMARY KEY, "@
        + "created_at INTEGER NOT NULL, "@ + column_defs(s.args@) + "result "@ + s.result_type@
        + ", "@ + "consumed BOOLEAN DEFAULT FALSE NOT NULL)"@
}

/// The statement that creates the index of a hooked function's table over
/// its indexed arguments, where it has any. The column list keeps the space
/// that follows the first comma of the index entries.
pub open spec fn create_index_text(s: FnSchema) -> Option<Seq<char>> {
    if index_entries(s.args@).len() > 0 {
        Some(
            "CREATE INDEX IF NOT EXISTS idx_"@ + s.name@ + " ON "@ + s.name@ + "("@
                + index_entries(s.args@).skip(1) + ")"@,
        )
    } else {
        None
    }
}

/// The statement that marks every row of a hooked function's table unused.
pub open spec fn reset_text(s: FnSchema) -> Seq<char> {
    "UPDATE "@ + s.name@ + " SET consumed = 0"@
}

/// The statement that takes the oldest unused row of a hooked function's
/// table whose indexed columns match the call, marks it used and returns
/// its argument and result columns.
pub open spec fn replay_query_text(s: FnSchema) -> Seq<char> {
    "UPDATE "@ + s.name@ + " SET consumed = true"@ + " WHERE id = ("@ + "SELECT id"@ + " FROM "@
        + s.name@ + " WHERE consumed IS FALSE "@ + filter_entries(s.args@) + " ORDER BY id ASC"@
        + " LIMIT 1"@ + ")"@ + " RETURNING "@ + returning_entries(s.args@) + "result"@
}

/// The parts of the statements that depend on each argument.
struct ArgTexts {
    defs: String,
    index: String,
    filter: String,
    returning: String,
}

fn arg_texts(args: &Vec<ArgColumn>) -> (t: ArgTexts)
    ensures
        t.defs@ == column_defs(args@),
        t.index@ == index_entries(args@),
        t.filter@ == filter_entries(args@),
        t.returning@ == returning_entries(args@),
{
    let mut t = ArgTexts {
        defs: String::new(),
        index: String::new(),
        filter: String::new(),
        returning: String::new(),
    };
    let mut i: usize = 0;
    while i < args.len()
        invariant
            0 <= i <= args@.len(),
            t.defs@ == column_defs(args@.take(i as int)),
            t.index@ == index_entries(args@.take(i as int)),
            t.filter@ == filter_entries(args@.take(i as int)),
            t.returning@ == returning_entries(args@.take(i as int)),
        decreases args.len() - i,
    {
        let a = &args[i];
        t.defs.append(a.name.as_str());
        t.defs.append(" ");
        t.defs.append(a.column_type.as_str());
        t.defs.append(", ");
        if a.indexed {
            t.index.append(", ");
            t.index.append(a.name.as_str());
            t.filter.append(" AND ");
            t.filter.append(a.name.as_str());
            t.filter.append(" IS ?");
        }
        t.returning.append(a.name.as_str());
        t.returning.append(", ");
        assert(args@.take(i + 1).drop_last() =~= args@.take(i as int));
        assert(args@.take(i + 1).last() == args@[i as int]);
        assert(t.defs@ =~= column_defs(args@.take(i + 1)));
        assert(t.index@ =~= index_entries(args@.take(i + 1)));
        assert(t.filter@ =~= filter_entries(args@.take(i + 1)));
        assert(t.returning@ =~= returning_entries(args@.take(i + 1)));
        i = i + 1;
    }
    assert(args@.take(args@.len() as int) =~= args@);
    t
}

impl FnSchema {
    /// The statement that creates the function's table.
    pub fn create_table_sql(&self) -> (sql: String)
        ensures
            sql@ == create_table_text(*self),
    {
        let t = arg_texts(&self.args);
        let mut sql = String::from_str("CREATE TABLE IF NOT EXISTS ");
        sql.append(self.name.as_str());
        sql.append(" (");
        sql.append("id INTEGER PRIMARY KEY, ");
        sql.append("created_at INTEGER NOT NULL, ");
        sql.append(t.defs.as_str());
        sql.append("result ");
        sql.append(self.result_type.as_str());
        sql.append(", ");
        sql.append("consumed BOOLEAN DEFAULT FALSE NOT NULL)");
        sql
    }

    /// The statement that creates the index over the indexed arguments, or
    /// `None` where no argument is indexed.
    pub fn create_index_sql(&self) -> (sql: Option<String>)
        ensures
            match sql {
                None => create_index_text(*self) is None,
                Some(q) => create_index_text(*self) == Some(q@),
            },
    {
        let t = arg_texts(&self.args);
        let n = t.index.as_str().unicode_len();
        if n > 0 {
            let mut sql = String::from_str("CREATE INDEX IF NOT EXISTS idx_");
            sql.append(self.name.as_str());
            sql.append(" ON ");
            sql.append(self.name.as_str());
            sql.append("(");
            sql.append(t.index.as_str().substring_char(1, n));
            sql.append(")");
            assert(index_entries(self.args@).skip(1) =~= index_entries(self.args@).subrange(1, n as int));
            Some(sql)
        } else {
            None
        }
    }

    /// The statement that marks every row of the function's table unused.
    pub fn reset_sql(&self) -> (sql: String)
        ensures
            sql@ == reset_text(*self),
    {
        let mut sql = String::from_str("UPDATE ");
        sql.append(self.name.as_str());
        sql.append(" SET consumed = 0");
        sql
    }

    /// The values that the replay query is bound to: those of the indexed
    /// arguments, in order, from the values of all the arguments. There are
    /// as many as the query has parameters, where no name holds a '?'.
    pub fn replay_query_params(&self, values: Vec<LogValue>) -> (params: Vec<LogValue>)
        requires
            values@.len() == self.args@.len(),
        ensures
            params@.map_values(|v: LogValue| v@) == indexed_values(
                self.args@,
                values@.map_values(|v: LogValue| v@),
            ),
            params@.map_values(|v: LogValue| v@) == flagged_values(
                self.args@,
                values@.map_values(|v: LogValue| v@),
            ).filter(|p: (bool, LogValueView)| p.0).map_values(|p: (bool, LogValueView)| p.1),
            names_without_marks(*self) ==> params@.len() == count_char(replay_query_text(*self), '?'),
    {
        let ghost all = values@.map_values(|v: LogValue| v@);
        let n = values.len();
        let mut rest = values;
        let mut params: Vec<LogValue> = Vec::new();
        let mut i: usize = 0;
        while i < n
            invariant
                0 <= i <= n,
                n == self.args@.len(),
                all.len() == n,
                rest@.map_values(|v: LogValue| v@) == all.skip(i as int),
                params@.map_values(|v: LogValue| v@) == indexed_values(
                    self.args@.take(i as int),
                    all.take(i as int),
                ),
            decreases n - i,
        {
            let ghost before = rest@;
            assert(rest@.len() == all.skip(i as int).len());
            let v = rest.remove(0);
            proof {
                assert(v@ == before.map_values(|v: LogValue| v@)[0]);
                assert(rest@ =~= before.subrange(1, before.len() as int));
                assert forall|j: int| 0 <= j < rest@.len() implies rest@[j]@ == all[i + 1 + j] by {
                    assert(rest@[j] == before[j + 1]);
                    assert(before.map_values(|v: LogValue| v@)[j + 1] == all.skip(i as int)[j + 1]);
                }
                assert(rest@.map_values(|v: LogValue| v@) =~= all.skip(i + 1));
                assert(self.args@.take(i + 1).drop_last() =~= self.args@.take(i as int));
                assert(all.take(i + 1).drop_last() =~= all.take(i as int));
                assert(all.take(i + 1).last() == all[i as int]);
                assert(all.skip(i as int)[0] == all[i as int]);
            }
            if self.args[i].indexed {
                params.push(v);
                proof {
                    assert(params@.map_values(|v: LogValue| v@) =~= indexed_values(
                        self.args@.take(i as int),
                        all.take(i as int),
                    ).push(all[i as int]));
                }
            }
            i = i + 1;
        }
        proof {
            assert(self.args@.take(n as int) =~= self.args@);
            assert(all.take(n as int) =~= all);
            lemma_indexed_values_len(self.args@, all);
            lemma_indexed_values_filter(self.args@, all);
            if names_without_marks(*self) {
                lemma_replay_query_marks(*self);
            }
        }
        params
    }

    /// The statement that takes the next recorded call to replay.
    pub fn replay_query_sql(&self) -> (sql: String)
        ensures
            sql@ == replay_query_text(*self),
    {
        let t = arg_texts(&self.args);
        let mut sql = String::from_str("UPDATE ");
        sql.append(self.name.as_str());
        sql.append(" SET consumed = true");
        sql.append(" WHERE id = (");
        sql.append("SELECT id");
        sql.append(" FROM ");
        sql.append(self.name.as_str());
        sql.append(" WHERE consumed IS FALSE ");
        sql.append(t.filter.as_str());
        sql.append(" ORDER BY id ASC");
        sql.append(" LIMIT 1");
        sql.append(")");
        sql.append(" RETURNING ");
        sql.append(t.returning.as_str());
        sql.append("result");
        sql
    }
}


/// How many times a character occurs in a text.
pub open spec fn count_char(s: Seq<char>, c: char) -> nat
    decreases s.len(),
{
    if s.len() == 0 {
        0
    } else {
        count_char(s.drop_last(), c) + if s.last() == c {
            1nat
        } else {
            0nat
        }
    }
}

proof fn lemma_count_concat(a: Seq<char>, b: Seq<char>, c: char)
    ensures
        count_char(a + b, c) == count_char(a, c) + count_char(b, c),
    decreases b.len(),
{
    if b.len() == 0 {
        assert(a + b =~= a);
    } else {
        lemma_count_concat(a, b.drop_last(), c);
        assert((a + b).drop_last() =~= a + b.drop_last());
    }
}

proof fn lemma_count_absent(s: Seq<char>, c: char)
    requires
        !s.contains(c),
    ensures
        count_char(s, c) == 0,
    decreases s.len(),
{
    if s.len() > 0 {
        assert(s.drop_last().len() < s.len());
        assert forall|i: int| 0 <= i < s.drop_last().len() implies s.drop_last()[i] != c by {
            assert(s.drop_last()[i] == s[i]);
        }
        lemma_count_absent(s.drop_last(), c);
        assert(s[s.len() - 1] != c);
    }
}

/// Whether no column name of a function's table holds a '?'.
pub open spec fn names_without_marks(s: FnSchema) -> bool {
    &&& !s.name@.contains('?')
    &&& forall|i: int| 0 <= i < s.args@.len() ==> !(#[trigger] s.args@[i]).name@.contains('?')
}

proof fn lemma_filter_marks(args: Seq<ArgColumn>)
    requires
        forall|i: int| 0 <= i < args.len() ==> !(#[trigger] args[i]).name@.contains('?'),
    ensures
        count_char(filter_entries(args), '?') == indexed_names(args).len(),
        count_char(returning_entries(args), '?') == 0,
    decreases args.len(),
{
    reveal_strlit(" AND ");
    reveal_strlit(" IS ?");
    reveal_strlit(", ");
    if args.len() > 0 {
        let prev = args.drop_last();
        assert forall|i: int| 0 <= i < prev.len() implies !(#[trigger] prev[i]).name@.contains('?') by {
            assert(prev[i] == args[i]);
        }
        lemma_filter_marks(prev);
        let name = args.last().name@;
        assert(!name.contains('?')) by {
            assert(args.last() == args[args.len() - 1]);
        }
        lemma_count_absent(name, '?');
        lemma_count_absent(", "@, '?');
        lemma_count_concat(returning_entries(prev), name, '?');
        lemma_count_concat(returning_entries(prev) + name, ", "@, '?');
        if args.last().indexed {
            lemma_count_absent(" AND "@, '?');
            assert(count_char(" IS ?"@, '?') == 1) by {
                let q = " IS ?"@;
                assert(q.drop_last() =~= seq![' ', 'I', 'S', ' ']);
                lemma_count_absent(q.drop_last(), '?');
            }
            lemma_count_concat(filter_entries(prev), " AND "@, '?');
            lemma_count_concat(filter_entries(prev) + " AND "@, name, '?');
            lemma_count_concat(filter_entries(prev) + " AND "@ + name, " IS ?"@, '?');
        }
    }
}

/// The statement that replay uses to take a recorded call has exactly one
/// parameter per indexed argument, so the values bound to it are those of
/// the indexed arguments, in order; this holds wherever no table or column
/// name itself holds a '?'.
pub proof fn lemma_replay_query_marks(s: FnSchema)
    requires
        names_without_marks(s),
    ensures
        count_char(replay_query_text(s), '?') == indexed_names(s.args@).len(),
{
    lemma_filter_marks(s.args@);
    reveal_strlit("UPDATE ");
    reveal_strlit(" SET consumed = true");
    reveal_strlit(" WHERE id = (");
    reveal_strlit("SELECT id");
    reveal_strlit(" FROM ");
    reveal_strlit(" WHERE consumed IS FALSE ");
    reveal_strlit(" ORDER BY id ASC");
    reveal_strlit(" LIMIT 1");
    reveal_strlit(")");
    reveal_strlit(" RETURNING ");
    reveal_strlit("result");
    lemma_count_absent("UPDATE "@, '?');
    lemma_count_absent(" SET consumed = true"@, '?');
    lemma_count_absent(" WHERE id = ("@, '?');
    lemma_count_absent("SELECT id"@, '?');
    lemma_count_absent(" FROM "@, '?');
    lemma_count_absent(" WHERE consumed IS FALSE "@, '?');
    lemma_count_absent(" ORDER BY id ASC"@, '?');
    lemma_count_absent(" LIMIT 1"@, '?');
    lemma_count_absent(")"@, '?');
    lemma_count_absent(" RETURNING "@, '?');
    lemma_count_absent("result"@, '?');
    lemma_count_absent(s.name@, '?');
    let a0 = "UPDATE "@;
    lemma_count_concat(a0, s.name@, '?');
    let a1 = a0 + s.name@;
    lemma_count_concat(a1, " SET consumed = true"@, '?');
    let a2 = a1 + " SET consumed = true"@;
    lemma_count_concat(a2, " WHERE id = ("@, '?');
    let a3 = a2 + " WHERE id = ("@;
    lemma_count_concat(a3, "SELECT id"@, '?');
    let a4 = a3 + "SELECT id"@;
    lemma_count_concat(a4, " FROM "@, '?');
    let a5 = a4 + " FROM "@;
    lemma_count_concat(a5, s.name@, '?');
    let a6 = a5 + s.name@;
    lemma_count_concat(a6, " WHERE consumed IS FALSE "@, '?');
    let a7 = a6 + " WHERE consumed IS FALSE "@;
    lemma_count_concat(a7, filter_entries(s.args@), '?');
    let a8 = a7 + filter_entries(s.args@);
    lemma_count_concat(a8, " ORDER BY id ASC"@, '?');
    let a9 = a8 + " ORDER BY id ASC"@;
    lemma_count_concat(a9, " LIMIT 1"@, '?');
    let a10 = a9 + " LIMIT 1"@;
    lemma_count_concat(a10, ")"@, '?');
    let a11 = a10 + ")"@;
    lemma_count_concat(a11, " RETURNING "@, '?');
    let a12 = a11 + " RETURNING "@;
    lemma_count_concat(a12, returning_entries(s.args@), '?');
    let a13 = a12 + returning_entries(s.args@);
    lemma_count_concat(a13, "result"@, '?');
    let a14 = a13 + "result"@;
    assert(a14 == replay_query_text(s));
}


proof fn lemma_index_entries(args: Seq<ArgColumn>)
    ensures
        (index_entries(args).len() > 0) == (indexed_names(args).len() > 0),
        indexed_names(args).len() > 0 ==> index_entries(args) == ","@ + " "@ + join_comma(
            indexed_names(args),
        ),
    decreases args.len(),
{
    reveal_strlit(", ");
    reveal_strlit(",");
    reveal_strlit(" ");
    if args.len() > 0 {
        let prev = args.drop_last();
        lemma_index_entries(prev);
        if args.last().indexed {
            let names = indexed_names(prev);
            let name = args.last().name@;
            if names.len() == 0 {
                assert(index_entries(prev).len() == 0);
                assert(index_entries(prev) =~= Seq::<char>::empty());
                assert(indexed_names(args) =~= seq![name]);
                assert(index_entries(args) =~= ","@ + " "@ + join_comma(indexed_names(args)));
            } else {
                assert(names.push(name).drop_last() =~= names);
                assert(index_entries(args) =~= ","@ + " "@ + join_comma(indexed_names(args)));
            }
        }
    }
}

/// The index of a function's table is created exactly when some argument
/// is indexed, and covers the indexed arguments, in order: the same columns
/// that the replay query matches on.
pub proof fn lemma_index_covers_indexed(s: FnSchema)
    ensures
        create_index_text(s) is Some <==> indexed_names(s.args@).len() > 0,
        create_index_text(s) matches Some(q) ==> q == "CREATE INDEX IF NOT EXISTS idx_"@ + s.name@
            + " ON "@ + s.name@ + "("@ + " "@ + join_comma(indexed_names(s.args@)) + ")"@,
{
    lemma_index_entries(s.args@);
    reveal_strlit(",");
    if indexed_names(s.args@).len() > 0 {
        assert(index_entries(s.args@).skip(1) =~= " "@ + join_comma(indexed_names(s.args@)));
    }
}

} // verus!
