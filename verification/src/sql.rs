//! SQL datasources: which statements may be sent, the catalog queries, and
//! the tables that come back.
use vstd::prelude::*;

use crate::error::{Error, ErrorV, Failure};
use crate::cli::{SqlDescribeArgs, SqlTablesArgs};
use crate::json::{json_text, to_json_text, JsonValue};
use crate::time::{millis_rfc3339, millis_to_rfc3339};
use crate::text::{opt_str_of, opt_string_view};
use crate::output::{aligned_table, cells_view, grid_view, headers_view, render_aligned_table, TableOutput};
use crate::text::{
    chars_eq_str, chars_of, contains_char, count_char, double_quotes, is_whitespace, is_ws,
    lemma_trim_end_char_skip, lemma_trim_end_prefix, lemma_trim_end_skip, lemma_trim_idempotent,
    lemma_trim_start_skip, lower_chars, lower_seq,
    owned, push_char, slice_range, string_of, trim_chars, trim_end_char, trim_end_seq,
    trim_seq, trim_start_seq, decimal, str_eq, u64_decimal, seq_less, str_less,
    lemma_seq_less_asym, lemma_seq_less_total, lemma_seq_less_trans,
};

verus! {

broadcast use vstd::string::group_string_axioms;

// ---------------------------------------------------------------------------
// Datasource types
// ---------------------------------------------------------------------------

/// The SQL dialect that a datasource type names, after ASCII lower-casing.
pub open spec fn sql_kind(ds_type: Seq<char>) -> Option<Seq<char>> {
    let l = lower_seq(ds_type);
    if l == "postgres"@ || l == "postgresql"@ || l == "grafana-postgresql-datasource"@ {
        Some("postgres"@)
    } else if l == "mysql"@ || l == "grafana-mysql-datasource"@ {
        Some("mysql"@)
    } else if l == "mssql"@ || l == "sqlserver"@ || l == "grafana-mssql-datasource"@ || l
        == "grafana-sqlserver-datasource"@ {
        Some("mssql"@)
    } else {
        None
    }
}

/// The dialect (`postgres`, `mysql` or `mssql`) of a datasource type, if it is SQL.
pub fn normalize_sql_type(ds_type: &str) -> (r: Option<&'static str>)
    ensures
        match r {
            Some(k) => sql_kind(ds_type@) == Some(k@),
            None => sql_kind(ds_type@) is None,
        },
{
    let v = chars_of(ds_type);
    let l = lower_chars(&v);
    if chars_eq_str(&l, "postgres") || chars_eq_str(&l, "postgresql") || chars_eq_str(
        &l,
        "grafana-postgresql-datasource",
    ) {
        Some("postgres")
    } else if chars_eq_str(&l, "mysql") || chars_eq_str(&l, "grafana-mysql-datasource") {
        Some("mysql")
    } else if chars_eq_str(&l, "mssql") || chars_eq_str(&l, "sqlserver") || chars_eq_str(
        &l,
        "grafana-mssql-datasource",
    ) || chars_eq_str(&l, "grafana-sqlserver-datasource") {
        Some("mssql")
    } else {
        None
    }
}

/// The dialect of a datasource type, or the error that it is not a supported SQL type.
pub fn require_supported_sql_type(ds_type: &str) -> (r: Result<&'static str, Error>)
    ensures
        match r {
            Ok(k) => sql_kind(ds_type@) == Some(k@),
            Err(e) => sql_kind(ds_type@) is None && e@ == Failure::UnsupportedSqlDatasource(
                ds_type@,
            ),
        },
{
    match normalize_sql_type(ds_type) {
        Some(k) => Ok(k),
        None => Err(Failure::UnsupportedSqlDatasource(owned(ds_type))),
    }
}

// ---------------------------------------------------------------------------
// Quoting
// ---------------------------------------------------------------------------

/// A SQL string literal: the text between single quotes, each quote doubled.
pub open spec fn sql_literal(value: Seq<char>) -> Seq<char> {
    seq!['\''] + double_quotes(value) + seq!['\'']
}

/// Appends `double_quotes(value)`.
fn push_doubled(out: &mut String, value: &str)
    ensures
        final(out)@ == old(out)@ + double_quotes(value@),
{
    let ghost start = out@;
    let v = chars_of(value);
    let mut i: usize = 0;
    while i < v.len()
        invariant
            i <= v@.len(),
            v@ == value@,
            out@ == start + double_quotes(v@.take(i as int)),
        decreases v.len() - i,
    {
        if v[i] == '\'' {
            push_char(out, '\'');
            push_char(out, '\'');
        } else {
            push_char(out, v[i]);
        }
        assert(v@.take(i + 1).drop_last() == v@.take(i as int));
        i = i + 1;
    }
    assert(v@.take(v@.len() as int) == v@);
}

/// Quotes a value as a SQL string literal.
pub fn sql_string_literal(value: &str) -> (r: String)
    ensures
        r@ == sql_literal(value@),
{
    let mut r = String::new();
    push_char(&mut r, '\'');
    push_doubled(&mut r, value);
    push_char(&mut r, '\'');
    r
}

/// Reading a doubled text back: every `''` becomes `'`.
pub open spec fn undouble(s: Seq<char>) -> Seq<char>
    decreases s.len(),
{
    if s.len() == 0 {
        seq![]
    } else if s.len() >= 2 && s[0] == '\'' && s[1] == '\'' {
        seq!['\''] + undouble(s.subrange(2, s.len() as int))
    } else {
        seq![s[0]] + undouble(s.drop_first())
    }
}

/// Within a doubled text, quotes only come in adjacent pairs.
pub open spec fn quotes_paired(s: Seq<char>) -> bool
    decreases s.len(),
{
    if s.len() == 0 {
        true
    } else if s[0] == '\'' {
        s.len() >= 2 && s[1] == '\'' && quotes_paired(s.subrange(2, s.len() as int))
    } else {
        quotes_paired(s.drop_first())
    }
}

/// `double_quotes` of a prefix and the last character.
proof fn lemma_double_quotes_front(s: Seq<char>)
    requires
        s.len() > 0,
    ensures
        double_quotes(s) == (if s[0] == '\'' {
            seq!['\'', '\'']
        } else {
            seq![s[0]]
        }) + double_quotes(s.drop_first()),
    decreases s.len(),
{
    if s.len() == 1 {
        assert(s.drop_last().len() == 0);
        assert(s.drop_first().len() == 0);
        assert(double_quotes(s.drop_first()) == Seq::<char>::empty());
        assert(double_quotes(s.drop_last()) == Seq::<char>::empty());
    } else {
        lemma_double_quotes_front(s.drop_last());
        assert(s.drop_last().drop_first() == s.drop_first().drop_last());
        assert(s.drop_first().last() == s.last());
    }
}

/// A quoted value's inner text has its quotes paired, and reading it back gives
/// the value: the literal cannot end early, and it denotes exactly the value.
pub proof fn law_sql_literal_round_trip(value: Seq<char>)
    ensures
        quotes_paired(double_quotes(value)),
        undouble(double_quotes(value)) == value,
        sql_literal(value)[0] == '\'',
        sql_literal(value).last() == '\'',
    decreases value.len(),
{
    if value.len() > 0 {
        lemma_double_quotes_front(value);
        law_sql_literal_round_trip(value.drop_first());
        let d = double_quotes(value);
        let rest = double_quotes(value.drop_first());
        if value[0] == '\'' {
            assert(d.subrange(2, d.len() as int) == rest);
        } else {
            assert(d.drop_first() == rest);
        }
        assert(seq![value[0]] + value.drop_first() == value);
    } else {
        assert(double_quotes(value) == Seq::<char>::empty());
    }
}

// ---------------------------------------------------------------------------
// Read-only statements
// ---------------------------------------------------------------------------

/// The leading run of non-whitespace characters.
pub open spec fn take_word(s: Seq<char>) -> Seq<char>
    decreases s.len(),
{
    if s.len() == 0 || is_ws(s[0]) {
        seq![]
    } else {
        seq![s[0]] + take_word(s.drop_first())
    }
}

/// The first whitespace-separated word, if any (`split_whitespace().next()`).
pub open spec fn first_word(s: Seq<char>) -> Option<Seq<char>> {
    let t = trim_start_seq(s);
    if t.len() == 0 {
        None
    } else {
        Some(take_word(t))
    }
}

/// A run of non-whitespace characters ended by whitespace or the end is the first word.
proof fn lemma_take_word(s: Seq<char>, j: int)
    requires
        0 <= j <= s.len(),
        forall|k: int| 0 <= k < j ==> !is_ws(#[trigger] s[k]),
        j == s.len() || is_ws(s[j]),
    ensures
        take_word(s) == s.subrange(0, j),
    decreases j,
{
    if j > 0 {
        let t = s.drop_first();
        assert forall|k: int| 0 <= k < j - 1 implies !is_ws(#[trigger] t[k]) by {
            assert(t[k] == s[k + 1]);
        }
        lemma_take_word(t, j - 1);
        assert(seq![s[0]] + t.subrange(0, j - 1) == s.subrange(0, j));
    } else {
        assert(s.subrange(0, 0) == Seq::<char>::empty());
    }
}

/// The first whitespace-separated word of a text.
pub fn first_sql_word(sql: &[char]) -> (r: Option<Vec<char>>)
    ensures
        match r {
            Some(w) => first_word(sql@) == Some(w@),
            None => first_word(sql@) is None,
        },
{
    let n = sql.len();
    let mut i: usize = 0;
    while i < n && is_whitespace(sql[i])
        invariant
            i <= n,
            n == sql@.len(),
            forall|k: int| 0 <= k < i ==> is_ws(#[trigger] sql@[k]),
        decreases n - i,
    {
        i = i + 1;
    }
    proof {
        lemma_trim_start_skip(sql@, i as int);
    }
    let ghost rest = sql@.subrange(i as int, n as int);
    assert(i == n || !is_ws(rest[0]));
    assert(trim_start_seq(rest) == rest);
    if i == n {
        return None;
    }
    let mut j: usize = i;
    while j < n && !is_whitespace(sql[j])
        invariant
            i <= j <= n,
            n == sql@.len(),
            forall|k: int| i <= k < j ==> !is_ws(#[trigger] sql@[k]),
        decreases n - j,
    {
        j = j + 1;
    }
    proof {
        assert forall|k: int| 0 <= k < j - i implies !is_ws(#[trigger] rest[k]) by {
            assert(rest[k] == sql@[k + i]);
        }
        lemma_take_word(rest, j - i);
        assert(rest.subrange(0, j - i) == sql@.subrange(i as int, j as int));
    }
    Some(slice_range(sql, i, j))
}

/// The statement keywords that read without writing.
pub open spec fn read_only_keyword(w: Seq<char>) -> bool {
    w == "select"@ || w == "with"@ || w == "show"@ || w == "explain"@ || w == "values"@
}

/// The statement text once trailing semicolons and the whitespace around them are gone.
pub open spec fn statement_body(sql: Seq<char>) -> Seq<char> {
    trim_end_seq(trim_end_char(trim_seq(sql), ';'))
}

/// What `validate_read_only_sql` decides.
pub open spec fn read_only_spec(sql: Seq<char>) -> Result<(), ErrorV> {
    if trim_seq(sql).len() == 0 {
        Err(Failure::EmptySql)
    } else if statement_body(sql).contains(';') {
        Err(Failure::MultipleStatements)
    } else {
        match first_word(statement_body(sql)) {
            None => Err(Failure::NoStatementType),
            Some(w) => if read_only_keyword(lower_seq(w)) {
                Ok(())
            } else {
                Err(Failure::NotReadOnly)
            },
        }
    }
}

/// Accepts one statement whose first word (in any case) is SELECT, WITH, SHOW,
/// EXPLAIN or VALUES; trailing semicolons are allowed.
pub fn validate_read_only_sql(sql: &str) -> (r: Result<(), Error>)
    ensures
        match r {
            Ok(_) => read_only_spec(sql@) == Ok::<(), ErrorV>(()),
            Err(e) => read_only_spec(sql@) == Err::<(), ErrorV>(e@),
        },
{
    let v = chars_of(sql);
    let t = trim_chars(&v);
    if t.len() == 0 {
        return Err(Failure::EmptySql);
    }
    let mut j: usize = t.len();
    while j > 0 && t[j - 1] == ';'
        invariant
            j <= t@.len(),
            forall|k: int| j <= k < t@.len() ==> #[trigger] t@[k] == ';',
        decreases j,
    {
        j = j - 1;
    }
    proof {
        lemma_trim_end_char_skip(t@, ';', j as int);
        let p = t@.subrange(0, j as int);
        assert(j == 0 || p.last() != ';');
        assert(trim_end_char(p, ';') == p);
    }
    let mut k: usize = j;
    while k > 0 && is_whitespace(t[k - 1])
        invariant
            k <= j <= t@.len(),
            forall|m: int| k <= m < j ==> is_ws(#[trigger] t@[m]),
        decreases k,
    {
        k = k - 1;
    }
    let body = slice_range(&t, 0, k);
    proof {
        let p = t@.subrange(0, j as int);
        assert forall|m: int| k <= m < p.len() implies is_ws(#[trigger] p[m]) by {
            assert(p[m] == t@[m]);
        }
        lemma_trim_end_skip(p, k as int);
        assert(p.subrange(0, k as int) == body@);
        assert(k == 0 || !is_ws(body@.last()));
        assert(trim_end_seq(body@) == body@);
        assert(body@ == statement_body(sql@));
    }
    if contains_char(&body, ';') {
        return Err(Failure::MultipleStatements);
    }
    let word = match first_sql_word(&body) {
        Some(w) => w,
        None => return Err(Failure::NoStatementType),
    };
    let lw = lower_chars(&word);
    if chars_eq_str(&lw, "select") || chars_eq_str(&lw, "with") || chars_eq_str(&lw, "show")
        || chars_eq_str(&lw, "explain") || chars_eq_str(&lw, "values") {
        Ok(())
    } else {
        Err(Failure::NotReadOnly)
    }
}

// ---------------------------------------------------------------------------
// Table names
// ---------------------------------------------------------------------------

/// The index of the first `c` in `s` (its length when there is none).
pub open spec fn first_index(s: Seq<char>, c: char) -> int
    decreases s.len(),
{
    if s.len() == 0 {
        0
    } else if s[0] == c {
        0
    } else {
        1 + first_index(s.drop_first(), c)
    }
}

/// The index of the first `c` when all before it differ.
proof fn lemma_first_index(s: Seq<char>, c: char, k: int)
    requires
        0 <= k < s.len(),
        s[k] == c,
        forall|m: int| 0 <= m < k ==> #[trigger] s[m] != c,
    ensures
        first_index(s, c) == k,
    decreases k,
{
    if k > 0 {
        let t = s.drop_first();
        assert forall|m: int| 0 <= m < k - 1 implies #[trigger] t[m] != c by {
            assert(t[m] == s[m + 1]);
        }
        lemma_first_index(t, c, k - 1);
    }
}

/// The count of `c` in a prefix grows by one exactly where `c` stands.
proof fn lemma_count_char_take(s: Seq<char>, c: char, i: int)
    requires
        0 <= i < s.len(),
    ensures
        count_char(s.take(i + 1), c) == count_char(s.take(i), c) + if s[i] == c {
            1nat
        } else {
            0nat
        },
{
    assert(s.take(i + 1).drop_last() == s.take(i));
}

/// What `resolve_schema_and_table` yields: the optional schema and the table.
pub open spec fn schema_table_spec(input: Seq<char>, schema_flag: Option<Seq<char>>) -> Result<
    (Option<Seq<char>>, Seq<char>),
    ErrorV,
> {
    let t = trim_seq(input);
    if t.len() == 0 {
        Err(Failure::EmptyTableName)
    } else if count_char(t, '.') > 1 {
        Err(Failure::BadTableName)
    } else if t.contains('.') {
        let k = first_index(t, '.');
        let schema = trim_seq(t.subrange(0, k));
        let table = trim_seq(t.subrange(k + 1, t.len() as int));
        if schema_flag is Some {
            Err(Failure::SchemaGivenTwice)
        } else if schema.len() == 0 || table.len() == 0 {
            Err(Failure::BadTableName)
        } else {
            Ok((Some(schema), table))
        }
    } else {
        Ok((schema_flag, t))
    }
}

/// Splits `<table>` or `<schema.table>`, with the schema possibly given by `--schema`.
pub fn resolve_schema_and_table(table_input: &str, schema_flag: Option<&str>) -> (r: Result<
    (Option<String>, String),
    Error,
>)
    ensures
        match r {
            Ok((s, t)) => schema_table_spec(table_input@, crate::time::opt_view(schema_flag))
                == Ok::<(Option<Seq<char>>, Seq<char>), ErrorV>((opt_string_view(s), t@)),
            Err(e) => schema_table_spec(table_input@, crate::time::opt_view(schema_flag)) == Err::<
                (Option<Seq<char>>, Seq<char>),
                ErrorV,
            >(e@),
        },
{
    let v = chars_of(table_input);
    let t = trim_chars(&v);
    if t.len() == 0 {
        return Err(Failure::EmptyTableName);
    }
    let mut dots: usize = 0;
    let mut first_dot: usize = t.len();
    let mut i: usize = 0;
    while i < t.len()
        invariant
            i <= t@.len(),
            dots as nat == count_char(t@.take(i as int), '.'),
            dots <= i,
            dots == 0 ==> first_dot == t@.len() && forall|m: int| 0 <= m < i ==> #[trigger] t@[m]
                != '.',
            dots > 0 ==> first_dot < i && t@[first_dot as int] == '.' && forall|m: int|
                0 <= m < first_dot ==> #[trigger] t@[m] != '.',
        decreases t.len() - i,
    {
        proof {
            lemma_count_char_take(t@, '.', i as int);
        }
        if t[i] == '.' {
            if dots == 0 {
                first_dot = i;
            }
            dots = dots + 1;
        }
        i = i + 1;
    }
    assert(t@.take(t@.len() as int) == t@);
    if dots > 1 {
        return Err(Failure::BadTableName);
    }
    if dots == 1 {
        proof {
            lemma_first_index(t@, '.', first_dot as int);
            assert(t@.contains('.'));
        }
        if schema_flag.is_some() {
            return Err(Failure::SchemaGivenTwice);
        }
        let schema_part = slice_range(&t, 0, first_dot);
        let table_part = slice_range(&t, first_dot + 1, t.len());
        let schema = trim_chars(&schema_part);
        let table = trim_chars(&table_part);
        if schema.len() == 0 || table.len() == 0 {
            return Err(Failure::BadTableName);
        }
        return Ok((Some(string_of(&schema)), string_of(&table)));
    }
    assert(!t@.contains('.'));
    let schema = match schema_flag {
        Some(s) => Some(owned(s)),
        None => None,
    };
    Ok((schema, string_of(&t)))
}

/// The first `c` of a text that holds one is where `first_index` points, and
/// none stands before it.
proof fn lemma_first_index_found(s: Seq<char>, c: char)
    requires
        s.contains(c),
    ensures
        0 <= first_index(s, c) < s.len(),
        s[first_index(s, c)] == c,
        forall|m: int| 0 <= m < first_index(s, c) ==> #[trigger] s[m] != c,
    decreases s.len(),
{
    if s[0] != c {
        let i = choose|i: int| 0 <= i < s.len() && s[i] == c;
        let t = s.drop_first();
        assert(t[i - 1] == c);
        lemma_first_index_found(t, c);
        assert forall|m: int| 0 <= m < first_index(s, c) implies #[trigger] s[m] != c by {
            if m > 0 {
                assert(s[m] == t[m - 1]);
            }
        }
    }
}

/// A text with `c` at two places counts it at least twice.
proof fn lemma_count_char_two(s: Seq<char>, c: char, i: int, j: int)
    requires
        0 <= i < j < s.len(),
        s[i] == c,
        s[j] == c,
    ensures
        count_char(s, c) >= 2,
    decreases s.len(),
{
    if j < s.len() - 1 {
        assert(s.drop_last()[i] == c && s.drop_last()[j] == c);
        lemma_count_char_two(s.drop_last(), c, i, j);
    } else {
        lemma_count_char_one(s.drop_last(), c, i);
    }
}

/// A text with `c` somewhere counts it at least once.
proof fn lemma_count_char_one(s: Seq<char>, c: char, i: int)
    requires
        0 <= i < s.len(),
        s[i] == c,
    ensures
        count_char(s, c) >= 1,
    decreases s.len(),
{
    if i < s.len() - 1 {
        assert(s.drop_last()[i] == c);
        lemma_count_char_one(s.drop_last(), c, i);
    }
}

/// What `trim_start_seq` leaves is a suffix.
proof fn lemma_trim_start_suffix(s: Seq<char>)
    ensures
        trim_start_seq(s).len() <= s.len(),
        trim_start_seq(s) == s.skip(s.len() - trim_start_seq(s).len()),
    decreases s.len(),
{
    if s.len() > 0 && is_ws(s[0]) {
        lemma_trim_start_suffix(s.drop_first());
        let u = trim_start_seq(s.drop_first());
        assert(s.drop_first().skip(s.drop_first().len() - u.len()) == s.skip(s.len() - u.len()));
    } else {
        assert(s.skip(0) == s);
    }
}

/// Trimming brings in no character that was not there.
proof fn lemma_trim_keeps_absent(s: Seq<char>, c: char)
    requires
        !s.contains(c),
    ensures
        !trim_seq(s).contains(c),
{
    lemma_trim_start_suffix(s);
    let t = trim_start_seq(s);
    lemma_trim_end_prefix(t);
    let a = s.len() - t.len();
    if trim_seq(s).contains(c) {
        let i = choose|i: int| 0 <= i < trim_seq(s).len() && trim_seq(s)[i] == c;
        assert(trim_seq(s)[i] == t[i]);
        assert(t[i] == s[a + i]);
        assert(s.contains(c));
    }
}

/// Law: a table name that `resolve_schema_and_table` accepts comes back
/// trimmed, not empty and without a dot. A dotted input (`<schema.table>`,
/// with no `--schema` given) yields a schema that is likewise trimmed, not
/// empty and without a dot; an input without a dot is the table itself,
/// trimmed, and the `--schema` flag is kept as given.
pub proof fn law_table_name_parts(input: Seq<char>, schema_flag: Option<Seq<char>>)
    ensures
        schema_table_spec(input, schema_flag) matches Ok((s, t)) ==> {
            &&& t.len() > 0
            &&& trim_seq(t) == t
            &&& !t.contains('.')
            &&& if trim_seq(input).contains('.') {
                &&& schema_flag is None
                &&& s matches Some(x) && x.len() > 0 && trim_seq(x) == x && !x.contains('.')
            } else {
                s == schema_flag && t == trim_seq(input)
            }
        },
{
    let tt = trim_seq(input);
    lemma_trim_idempotent(input);
    if tt.len() > 0 && count_char(tt, '.') <= 1 && tt.contains('.') {
        lemma_first_index_found(tt, '.');
        let k = first_index(tt, '.');
        let head = tt.subrange(0, k);
        let tail = tt.subrange(k + 1, tt.len() as int);
        assert(!head.contains('.'));
        if tail.contains('.') {
            let j = choose|j: int| 0 <= j < tail.len() && tail[j] == '.';
            assert(tt[k + 1 + j] == '.');
            lemma_count_char_two(tt, '.', k, k + 1 + j);
        }
        lemma_trim_keeps_absent(head, '.');
        lemma_trim_keeps_absent(tail, '.');
        lemma_trim_idempotent(head);
        lemma_trim_idempotent(tail);
    }
}

// ---------------------------------------------------------------------------
// Catalog queries
// ---------------------------------------------------------------------------

/// The start of the table listing.
pub const TABLES_SELECT: &'static str = "SELECT table_schema AS schema_name, table_name\nFROM information_schema.tables\nWHERE table_type = 'BASE TABLE'";

/// The PostgreSQL system schemas, left out.
pub const POSTGRES_SYSTEM_SCHEMAS: &'static str = "\n  AND table_schema NOT IN ('pg_catalog', 'information_schema')";

/// The MySQL system schemas, left out.
pub const MYSQL_SYSTEM_SCHEMAS: &'static str = "\n  AND table_schema NOT IN ('information_schema', 'mysql', 'performance_schema', 'sys')";

/// The SQL Server system schemas, left out.
pub const MSSQL_SYSTEM_SCHEMAS: &'static str = "\n  AND table_schema NOT IN ('INFORMATION_SCHEMA', 'sys')";

/// The schema filter, before its literal.
pub const SCHEMA_EQUALS: &'static str = "\n  AND table_schema = ";

/// The table-name pattern filter, before its literal.
pub const TABLE_NAME_LIKE: &'static str = "\n  AND table_name LIKE ";

/// The order of the table listing.
pub const TABLES_ORDER: &'static str = "\nORDER BY table_schema, table_name";

/// The start of a column listing, before the table's literal.
pub const COLUMNS_SELECT: &'static str = "SELECT table_schema AS schema_name, column_name, data_type, is_nullable, column_default, ordinal_position\nFROM information_schema.columns\nWHERE table_name = ";

/// The order of a column listing.
pub const COLUMNS_ORDER: &'static str = "\nORDER BY table_schema, ordinal_position";

/// An optional filter: its prefix and the quoted value, or nothing.
pub open spec fn filter_text(prefix: Seq<char>, value: Option<Seq<char>>) -> Seq<char> {
    match value {
        Some(v) => prefix + sql_literal(v),
        None => seq![],
    }
}

/// The start of a schema listing.
pub const SCHEMAS_SELECT: &'static str = "SELECT schema_name\nFROM information_schema.schemata";

/// The system schemas of PostgreSQL, left out of a schema listing.
pub const POSTGRES_SYSTEM_SCHEMATA: &'static str = "\nWHERE schema_name NOT IN ('pg_catalog', 'information_schema')";

/// The system schemas of MySQL, left out of a schema listing.
pub const MYSQL_SYSTEM_SCHEMATA: &'static str = "\nWHERE schema_name NOT IN ('information_schema', 'mysql', 'performance_schema', 'sys')";

/// The system schemas of SQL Server, left out of a schema listing.
pub const MSSQL_SYSTEM_SCHEMATA: &'static str = "\nWHERE schema_name NOT IN ('INFORMATION_SCHEMA', 'sys')";

/// The order of a schema listing.
pub const SCHEMAS_ORDER: &'static str = "\nORDER BY schema_name";

/// What `build_schemas_query` yields.
pub open spec fn schemas_query_spec(ds_type: Seq<char>) -> Result<Seq<char>, ErrorV> {
    let kind = lower_seq(ds_type);
    if kind == "postgres"@ {
        Ok(SCHEMAS_SELECT@ + POSTGRES_SYSTEM_SCHEMATA@ + SCHEMAS_ORDER@)
    } else if kind == "mysql"@ {
        Ok(SCHEMAS_SELECT@ + MYSQL_SYSTEM_SCHEMATA@ + SCHEMAS_ORDER@)
    } else if kind == "mssql"@ {
        Ok(SCHEMAS_SELECT@ + MSSQL_SYSTEM_SCHEMATA@ + SCHEMAS_ORDER@)
    } else {
        Err(Failure::UnsupportedSqlType(kind))
    }
}

/// Lists the user schemas of a `postgres`, `mysql` or `mssql` datasource, by
/// name, leaving out the system schemas of each.
pub fn build_schemas_query(ds_type: &str) -> (r: Result<String, Error>)
    ensures
        crate::time::text_result_view(r) == schemas_query_spec(ds_type@),
{
    let kind = lower_chars(&chars_of(ds_type));
    let system = if chars_eq_str(&kind, "postgres") {
        POSTGRES_SYSTEM_SCHEMATA
    } else if chars_eq_str(&kind, "mysql") {
        MYSQL_SYSTEM_SCHEMATA
    } else if chars_eq_str(&kind, "mssql") {
        MSSQL_SYSTEM_SCHEMATA
    } else {
        return Err(Failure::UnsupportedSqlType(string_of(&kind)));
    };
    let mut query = owned(SCHEMAS_SELECT);
    query.append(system);
    query.append(SCHEMAS_ORDER);
    Ok(query)
}

/// What `build_tables_query` yields.
pub open spec fn tables_query_spec(
    ds_type: Seq<char>,
    schema: Option<Seq<char>>,
    like: Option<Seq<char>>,
) -> Result<Seq<char>, ErrorV> {
    let kind = lower_seq(ds_type);
    let system = if kind == "postgres"@ {
        Some(POSTGRES_SYSTEM_SCHEMAS@)
    } else if kind == "mysql"@ {
        Some(MYSQL_SYSTEM_SCHEMAS@)
    } else if kind == "mssql"@ {
        Some(MSSQL_SYSTEM_SCHEMAS@)
    } else {
        None
    };
    match system {
        None => Err(Failure::UnsupportedSqlType(kind)),
        Some(sys) => Ok(
            TABLES_SELECT@ + sys + filter_text(SCHEMA_EQUALS@, schema) + filter_text(
                TABLE_NAME_LIKE@,
                like,
            ) + TABLES_ORDER@,
        ),
    }
}

/// Law: a schema given to the table listing narrows it to that schema in every
/// dialect: the query with a schema is the query without one with
/// `table_schema` equal to the quoted schema added right after the system
/// schemas are left out (and before any name pattern); a name pattern is
/// added the same way, right before the order.
pub proof fn law_tables_filters_add(ds_type: Seq<char>, schema: Seq<char>, like: Seq<char>)
    ensures
        tables_query_spec(ds_type, None, None) matches Ok(q) ==> exists|sys: Seq<char>|
            {
                &&& q == TABLES_SELECT@ + sys + TABLES_ORDER@
                &&& tables_query_spec(ds_type, Some(schema), None) == Ok::<Seq<char>, ErrorV>(
                    TABLES_SELECT@ + sys + SCHEMA_EQUALS@ + sql_literal(schema) + TABLES_ORDER@,
                )
                &&& tables_query_spec(ds_type, None, Some(like)) == Ok::<Seq<char>, ErrorV>(
                    TABLES_SELECT@ + sys + TABLE_NAME_LIKE@ + sql_literal(like) + TABLES_ORDER@,
                )
                &&& tables_query_spec(ds_type, Some(schema), Some(like)) == Ok::<
                    Seq<char>,
                    ErrorV,
                >(
                    TABLES_SELECT@ + sys + SCHEMA_EQUALS@ + sql_literal(schema) + TABLE_NAME_LIKE@
                        + sql_literal(like) + TABLES_ORDER@,
                )
            },
{
    if let Ok(q) = tables_query_spec(ds_type, None, None) {
        let kind = lower_seq(ds_type);
        let sys = if kind == "postgres"@ {
            POSTGRES_SYSTEM_SCHEMAS@
        } else if kind == "mysql"@ {
            MYSQL_SYSTEM_SCHEMAS@
        } else {
            MSSQL_SYSTEM_SCHEMAS@
        };
        let e = Seq::<char>::empty();
        let se = SCHEMA_EQUALS@ + sql_literal(schema);
        let li = TABLE_NAME_LIKE@ + sql_literal(like);
        assert(TABLES_SELECT@ + sys + e + e + TABLES_ORDER@ =~= TABLES_SELECT@ + sys
            + TABLES_ORDER@);
        assert(TABLES_SELECT@ + sys + se + e + TABLES_ORDER@ =~= TABLES_SELECT@ + sys
            + SCHEMA_EQUALS@ + sql_literal(schema) + TABLES_ORDER@);
        assert(TABLES_SELECT@ + sys + e + li + TABLES_ORDER@ =~= TABLES_SELECT@ + sys
            + TABLE_NAME_LIKE@ + sql_literal(like) + TABLES_ORDER@);
        assert(TABLES_SELECT@ + sys + se + li + TABLES_ORDER@ =~= TABLES_SELECT@ + sys
            + SCHEMA_EQUALS@ + sql_literal(schema) + TABLE_NAME_LIKE@ + sql_literal(like)
            + TABLES_ORDER@);
    }
}

/// Appends an optional filter.
fn push_filter(out: &mut String, prefix: &str, value: Option<&str>)
    ensures
        final(out)@ == old(out)@ + filter_text(prefix@, crate::time::opt_view(value)),
{
    if let Some(v) = value {
        out.append(prefix);
        let lit = sql_string_literal(v);
        out.append(lit.as_str());
    }
}

/// Lists the user tables of a `postgres`, `mysql` or `mssql` datasource, optionally
/// in one schema and with names matching a LIKE pattern.
pub fn build_tables_query(ds_type: &str, schema: Option<&str>, like: Option<&str>) -> (r: Result<
    String,
    Error,
>)
    ensures
        crate::time::text_result_view(r) == tables_query_spec(
            ds_type@,
            crate::time::opt_view(schema),
            crate::time::opt_view(like),
        ),
{
    let kind = lower_chars(&chars_of(ds_type));
    let system = if chars_eq_str(&kind, "postgres") {
        POSTGRES_SYSTEM_SCHEMAS
    } else if chars_eq_str(&kind, "mysql") {
        MYSQL_SYSTEM_SCHEMAS
    } else if chars_eq_str(&kind, "mssql") {
        MSSQL_SYSTEM_SCHEMAS
    } else {
        return Err(Failure::UnsupportedSqlType(string_of(&kind)));
    };
    let mut query = owned(TABLES_SELECT);
    query.append(system);
    push_filter(&mut query, SCHEMA_EQUALS, schema);
    push_filter(&mut query, TABLE_NAME_LIKE, like);
    query.append(TABLES_ORDER);
    Ok(query)
}

/// What `build_describe_query` yields.
pub open spec fn describe_query_spec(
    ds_type: Seq<char>,
    schema: Option<Seq<char>>,
    table: Seq<char>,
) -> Result<Seq<char>, ErrorV> {
    let kind = lower_seq(ds_type);
    let head = COLUMNS_SELECT@ + sql_literal(table);
    if kind == "postgres"@ {
        let filter = match schema {
            Some(s) => SCHEMA_EQUALS@ + sql_literal(s),
            None => POSTGRES_SYSTEM_SCHEMAS@,
        };
        Ok(head + filter + COLUMNS_ORDER@)
    } else if kind == "mysql"@ || kind == "mssql"@ {
        Ok(head + filter_text(SCHEMA_EQUALS@, schema) + COLUMNS_ORDER@)
    } else {
        Err(Failure::UnsupportedSqlType(kind))
    }
}

/// Law: listing a table's columns with a schema given keeps to that schema
/// in every dialect: PostgreSQL, MySQL and SQL Server all ask for the table's
/// columns with `table_schema` equal to the quoted schema, the same query for
/// all three. Without a schema, MySQL and SQL Server look in every schema.
pub proof fn law_describe_keeps_to_schema(ds_type: Seq<char>, schema: Seq<char>, table: Seq<char>)
    ensures
        lower_seq(ds_type) == "postgres"@ || lower_seq(ds_type) == "mysql"@ || lower_seq(ds_type)
            == "mssql"@ ==> describe_query_spec(ds_type, Some(schema), table) == Ok::<
            Seq<char>,
            ErrorV,
        >(
            COLUMNS_SELECT@ + sql_literal(table) + SCHEMA_EQUALS@ + sql_literal(schema)
                + COLUMNS_ORDER@,
        ),
        lower_seq(ds_type) == "mysql"@ || lower_seq(ds_type) == "mssql"@ ==> describe_query_spec(
            ds_type,
            None,
            table,
        ) == Ok::<Seq<char>, ErrorV>(COLUMNS_SELECT@ + sql_literal(table) + COLUMNS_ORDER@),
{
    assert(COLUMNS_SELECT@ + sql_literal(table) + (SCHEMA_EQUALS@ + sql_literal(schema))
        + COLUMNS_ORDER@ =~= COLUMNS_SELECT@ + sql_literal(table) + SCHEMA_EQUALS@ + sql_literal(
        schema,
    ) + COLUMNS_ORDER@);
    reveal_strlit("postgres");
    reveal_strlit("mysql");
    reveal_strlit("mssql");
    assert("mysql"@.len() != "postgres"@.len());
    assert("mssql"@.len() != "postgres"@.len());
    assert(COLUMNS_SELECT@ + sql_literal(table) + Seq::<char>::empty() + COLUMNS_ORDER@
        =~= COLUMNS_SELECT@ + sql_literal(table) + COLUMNS_ORDER@);
}

/// Lists the columns of a table; without a schema, PostgreSQL leaves out its
/// system schemas while MySQL and SQL Server look in every schema.
pub fn build_describe_query(ds_type: &str, schema: Option<&str>, table: &str) -> (r: Result<
    String,
    Error,
>)
    ensures
        crate::time::text_result_view(r) == describe_query_spec(ds_type@, crate::time::opt_view(schema), table@),
{
    let kind = lower_chars(&chars_of(ds_type));
    let mut head = owned(COLUMNS_SELECT);
    let lit = sql_string_literal(table);
    head.append(lit.as_str());
    let mut filter = String::new();
    if chars_eq_str(&kind, "postgres") {
        match schema {
            Some(s) => {
                filter.append(SCHEMA_EQUALS);
                let l = sql_string_literal(s);
                filter.append(l.as_str());
            },
            None => filter.append(POSTGRES_SYSTEM_SCHEMAS),
        }
    } else if chars_eq_str(&kind, "mysql") || chars_eq_str(&kind, "mssql") {
        push_filter(&mut filter, SCHEMA_EQUALS, schema);
    } else {
        return Err(Failure::UnsupportedSqlType(string_of(&kind)));
    }
    let mut query = head;
    query.append(filter.as_str());
    query.append(COLUMNS_ORDER);
    Ok(query)
}

// ---------------------------------------------------------------------------
// Query results
// ---------------------------------------------------------------------------

/// A result cell. It keeps the kind of JSON value the datasource sent: `null`,
/// a boolean, a number (by its text), a string, or an array or object (by its
/// compact JSON text).
#[derive(Clone, Debug, PartialEq, Eq)]
pub enum SqlCell<S> {
    Null,
    Bool(bool),
    Number(S),
    Text(S),
    Nested(S),
}

/// A cell as the library returns it.
pub type Cell = SqlCell<String>;

/// A cell with its texts as character sequences.
pub type CellV = SqlCell<Seq<char>>;

/// A row's (column, cell) pairs with texts as character sequences.
pub type RowV = Seq<(Seq<char>, CellV)>;

/// A cell's texts as character sequences.
pub open spec fn cell_view(c: Cell) -> CellV {
    match c {
        SqlCell::Null => SqlCell::Null,
        SqlCell::Bool(b) => SqlCell::Bool(b),
        SqlCell::Number(n) => SqlCell::Number(n@),
        SqlCell::Text(t) => SqlCell::Text(t@),
        SqlCell::Nested(j) => SqlCell::Nested(j@),
    }
}

/// The cell that holds a JSON value.
pub open spec fn cell_of(v: JsonValue) -> CellV {
    match v {
        JsonValue::Null => SqlCell::Null,
        JsonValue::Bool(b) => SqlCell::Bool(b),
        JsonValue::Number(n) => SqlCell::Number(n@),
        JsonValue::Str(t) => SqlCell::Text(t@),
        _ => SqlCell::Nested(json_text(v)),
    }
}

/// The empty text, which stands in a row where its column has no value.
pub open spec fn empty_cell() -> CellV {
    SqlCell::Text(seq![])
}

/// How a cell reads in a table: `null`, `true` or `false`, a number's or a
/// string's text, or the JSON text of an array or object.
pub open spec fn cell_plain(c: CellV) -> Seq<char> {
    match c {
        SqlCell::Null => "null"@,
        SqlCell::Bool(b) => if b {
            "true"@
        } else {
            "false"@
        },
        SqlCell::Number(n) => n,
        SqlCell::Text(t) => t,
        SqlCell::Nested(j) => j,
    }
}

/// A cell as it reads in a table (see `cell_plain`).
pub fn cell_to_text(c: &Cell) -> (s: String)
    ensures
        s@ == cell_plain(cell_view(*c)),
{
    match c {
        SqlCell::Null => owned("null"),
        SqlCell::Bool(b) => if *b {
            owned("true")
        } else {
            owned("false")
        },
        SqlCell::Number(n) => n.clone(),
        SqlCell::Text(t) => t.clone(),
        SqlCell::Nested(j) => j.clone(),
    }
}

/// The cell that holds a JSON value (see `cell_of`).
fn cell_of_value(v: &JsonValue) -> (c: Cell)
    ensures
        cell_view(c) == cell_of(*v),
{
    match v {
        JsonValue::Null => SqlCell::Null,
        JsonValue::Bool(b) => SqlCell::Bool(*b),
        JsonValue::Number(n) => SqlCell::Number(n.clone()),
        JsonValue::Str(t) => SqlCell::Text(t.clone()),
        _ => SqlCell::Nested(to_json_text(v)),
    }
}

/// One result row: (column, cell) pairs in column order. Where a column name
/// repeats, the later pair is the one that counts, as in a map filled in order.
pub type Row = Vec<(String, Cell)>;

/// A row's pairs with texts as character sequences.
pub open spec fn row_view(r: Row) -> RowV {
    r@.map_values(|p: (String, Cell)| (p.0@, cell_view(p.1)))
}

/// Rows as character sequences.
pub open spec fn rows_view(rows: Seq<Row>) -> Seq<RowV> {
    rows.map_values(|r: Row| row_view(r))
}

/// Texts as character sequences.
pub open spec fn strings_view(v: Seq<String>) -> Seq<Seq<char>> {
    v.map_values(|s: String| s@)
}

/// The columns and rows of a datasource response.
#[derive(Debug)]
pub struct ParsedSqlTable {
    pub columns: Vec<String>,
    pub rows: Vec<Row>,
}

/// A parsed table as character sequences.
pub open spec fn parsed_view(t: ParsedSqlTable) -> (Seq<Seq<char>>, Seq<RowV>) {
    (strings_view(t.columns@), rows_view(t.rows@))
}

/// The names of frame fields, each taken from its `name` string.
pub open spec fn field_names(fields: Seq<JsonValue>) -> Result<Seq<Seq<char>>, ErrorV>
    decreases fields.len(),
{
    if fields.len() == 0 {
        Ok(seq![])
    } else {
        match field_names(fields.drop_last()) {
            Err(e) => Err(e),
            Ok(names) => match fields.last().member("name"@) {
                Some(JsonValue::Str(n)) => Ok(names.push(n@)),
                _ => Err(Failure::MissingFieldName),
            },
        }
    }
}

/// The column names of a frame (`schema.fields[*].name`).
pub open spec fn frame_columns_spec(frame: JsonValue) -> Result<Seq<Seq<char>>, ErrorV> {
    match frame.member("schema"@) {
        Some(schema) => match schema.member("fields"@) {
            Some(JsonValue::Array(fields)) => field_names(fields@),
            _ => Err(Failure::MissingSchemaFields),
        },
        None => Err(Failure::MissingSchemaFields),
    }
}

/// Whether every entry is an array.
pub open spec fn all_arrays(cols: Seq<JsonValue>) -> bool {
    forall|i: int| 0 <= i < cols.len() ==> #[trigger] cols[i] is Array
}

/// The length of an array value (zero for other values).
pub open spec fn array_len(v: JsonValue) -> nat {
    match v {
        JsonValue::Array(a) => a@.len(),
        _ => 0,
    }
}

/// The greatest array length among the entries (zero when there are none).
pub open spec fn max_array_len(cols: Seq<JsonValue>) -> nat
    decreases cols.len(),
{
    if cols.len() == 0 {
        0
    } else {
        let m = max_array_len(cols.drop_last());
        let l = array_len(cols.last());
        if l > m {
            l
        } else {
            m
        }
    }
}

/// Whether a frame field is declared as holding times (`"type": "time"`).
pub open spec fn field_is_time(field: JsonValue) -> bool {
    field.member("type"@) matches Some(JsonValue::Str(t)) && t@ == "time"@
}

/// For each field of a frame, whether it holds times (nothing when the frame
/// has no `schema.fields`).
pub open spec fn time_flags(frame: JsonValue) -> Seq<bool> {
    match frame.member("schema"@) {
        Some(schema) => match schema.member("fields"@) {
            Some(JsonValue::Array(fields)) => fields@.map_values(|f: JsonValue| field_is_time(f)),
            _ => seq![],
        },
        None => seq![],
    }
}

/// Whether column `c` holds times.
pub open spec fn flag_at(flags: Seq<bool>, c: int) -> bool {
    0 <= c < flags.len() && flags[c]
}

/// A cell of a time column: a number of milliseconds since the epoch becomes
/// its RFC 3339 text (see `millis_rfc3339`); any other cell stays as it is.
pub open spec fn time_cell(c: CellV) -> CellV {
    match c {
        SqlCell::Number(n) => match millis_rfc3339(n) {
            Some(t) => SqlCell::Text(t),
            None => c,
        },
        _ => c,
    }
}

/// Cell `r` of a column (of a time column when `time` holds), the empty text
/// past its end.
pub open spec fn cell_at(col: JsonValue, r: int, time: bool) -> CellV {
    match col {
        JsonValue::Array(a) => if 0 <= r < a@.len() {
            if time {
                time_cell(cell_of(a@[r]))
            } else {
                cell_of(a@[r])
            }
        } else {
            empty_cell()
        },
        _ => empty_cell(),
    }
}

/// The rows of a frame whose columns are `cols`, read column-wise from `values`.
pub open spec fn frame_table(
    values: Seq<JsonValue>,
    columns: Seq<Seq<char>>,
    flags: Seq<bool>,
) -> Seq<
    RowV,
> {
    Seq::new(max_array_len(values), |r: int| frame_row(values, columns, flags, r))
}

/// The rows of a frame (`data.values` holds one array per column). The cells
/// of a field declared as holding times read as RFC 3339 text (see `time_cell`).
pub open spec fn frame_rows_spec(frame: JsonValue, columns: Seq<Seq<char>>) -> Result<
    Seq<RowV>,
    ErrorV,
> {
    let values = match frame.member("data"@) {
        Some(data) => match data.member("values"@) {
            Some(JsonValue::Array(v)) => Some(v@),
            _ => None,
        },
        None => None,
    };
    match values {
        None => Err(Failure::MissingDataValues),
        Some(v) => if v.len() != columns.len() {
            Err(Failure::ColumnCountMismatch(v.len() as usize, columns.len() as usize))
        } else if !all_arrays(v) {
            Err(Failure::ColumnNotArray)
        } else {
            Ok(frame_table(v, columns, time_flags(frame)))
        },
    }
}

/// The columns and rows gathered from frames in order: the first frame with
/// columns fixes them, later frames must repeat them, and rows accumulate.
pub open spec fn frames_fold(frames: Seq<JsonValue>) -> Result<
    (Seq<Seq<char>>, Seq<RowV>),
    ErrorV,
>
    decreases frames.len(),
{
    if frames.len() == 0 {
        Ok((seq![], seq![]))
    } else {
        match frames_fold(frames.drop_last()) {
            Err(e) => Err(e),
            Ok((cols, rows)) => match frame_columns_spec(frames.last()) {
                Err(e) => Err(e),
                Ok(fc) => if cols.len() != 0 && cols != fc {
                    Err(Failure::FrameColumnsDiffer)
                } else {
                    let used = if cols.len() == 0 {
                        fc
                    } else {
                        cols
                    };
                    match frame_rows_spec(frames.last(), used) {
                        Err(e) => Err(e),
                        Ok(fr) => Ok((used, rows + fr)),
                    }
                },
            },
        }
    }
}

/// The place of the entry with the least key (the first such entry when keys
/// repeat; zero when there are none).
pub open spec fn least_key_index(entries: Seq<(String, JsonValue)>) -> int
    decreases entries.len(),
{
    if entries.len() <= 1 {
        0
    } else {
        let j = least_key_index(entries.drop_last());
        if seq_less(entries.last().0@, entries[j].0@) {
            entries.len() - 1
        } else {
            j
        }
    }
}

/// The entry `least_key_index` picks has a key that no other key is less than.
pub proof fn lemma_least_key_index(entries: Seq<(String, JsonValue)>)
    requires
        entries.len() > 0,
    ensures
        0 <= least_key_index(entries) < entries.len(),
        forall|k: int|
            0 <= k < entries.len() ==> !seq_less(
                #[trigger] entries[k].0@,
                entries[least_key_index(entries)].0@,
            ),
    decreases entries.len(),
{
    if entries.len() > 1 {
        let init = entries.drop_last();
        lemma_least_key_index(init);
        let j = least_key_index(init);
        let last = entries.len() - 1;
        let i = least_key_index(entries);
        assert forall|k: int| 0 <= k < entries.len() implies !seq_less(
            #[trigger] entries[k].0@,
            entries[i].0@,
        ) by {
            lemma_seq_less_total(entries[last].0@, init[j].0@);
            lemma_seq_less_asym(entries[last].0@, init[j].0@);
            if k < last {
                assert(entries[k] == init[k]);
                if i == last && seq_less(entries[k].0@, entries[last].0@) {
                    lemma_seq_less_trans(entries[k].0@, entries[last].0@, init[j].0@);
                }
            } else if i == last {
                lemma_seq_less_asym(entries[last].0@, entries[last].0@);
            }
        }
    } else {
        lemma_seq_less_asym(entries[0].0@, entries[0].0@);
    }
}

/// The entry with the least key (see `least_key_index`).
fn least_key_position(entries: &Vec<(String, JsonValue)>) -> (i: usize)
    requires
        entries@.len() > 0,
    ensures
        i == least_key_index(entries@),
        i < entries@.len(),
{
    let mut best: usize = 0;
    let mut i: usize = 1;
    assert(entries@.take(1).len() == 1);
    while i < entries.len()
        invariant
            1 <= i <= entries@.len(),
            best == least_key_index(entries@.take(i as int)),
            best < i,
        decreases entries.len() - i,
    {
        let ghost pre = entries@.take(i as int);
        let ghost cur = entries@.take(i + 1);
        assert(cur.drop_last() == pre);
        assert(cur.last() == entries@[i as int]);
        proof {
            lemma_least_key_index(pre);
        }
        assert(cur[best as int] == entries@[best as int]);
        if str_less(entries[i].0.as_str(), entries[best].0.as_str()) {
            best = i;
        }
        i = i + 1;
    }
    assert(entries@.take(entries@.len() as int) == entries@);
    best
}

/// What `parse_ds_query_result` yields for a `/api/ds/query` response. The
/// result it reads is the entry of `results` with the least key, as the
/// map that Grafana's answer is read into orders its keys.
pub open spec fn ds_query_spec(payload: JsonValue) -> Result<
    (Seq<Seq<char>>, Seq<RowV>),
    ErrorV,
> {
    match payload.member("results"@) {
        Some(JsonValue::Object(results)) => if results@.len() == 0 {
            Err(Failure::NoQueryResults)
        } else {
            let first = results@[least_key_index(results@)].1;
            match first.member("error"@) {
                Some(JsonValue::Str(e)) => Err(Failure::DatasourceQueryFailed(e@)),
                _ => match first.member("frames"@) {
                    Some(JsonValue::Array(frames)) => frames_fold(frames@),
                    _ => Ok((seq![], seq![])),
                },
            }
        },
        _ => Err(Failure::MissingResults),
    }
}

/// The column names of a frame.
pub fn extract_frame_columns(frame: &JsonValue) -> (r: Result<Vec<String>, Error>)
    ensures
        match r {
            Ok(c) => frame_columns_spec(*frame) == Ok::<Seq<Seq<char>>, ErrorV>(
                strings_view(c@),
            ),
            Err(e) => frame_columns_spec(*frame) == Err::<Seq<Seq<char>>, ErrorV>(e@),
        },
{
    let fields = match frame.get("schema") {
        Some(schema) => match schema.get("fields") {
            Some(f) => match f.as_array() {
                Some(a) => a,
                None => return Err(Failure::MissingSchemaFields),
            },
            None => return Err(Failure::MissingSchemaFields),
        },
        None => return Err(Failure::MissingSchemaFields),
    };
    let mut names: Vec<String> = Vec::new();
    let mut i: usize = 0;
    assert(fields@.take(0) =~= Seq::<JsonValue>::empty());
    assert(strings_view(names@) =~= Seq::<Seq<char>>::empty());
    while i < fields.len()
        invariant
            i <= fields@.len(),
            frame_columns_spec(*frame) == field_names(fields@),
            field_names(fields@.take(i as int)) == Ok::<Seq<Seq<char>>, ErrorV>(
                strings_view(names@),
            ),
        decreases fields.len() - i,
    {
        assert(fields@.take(i + 1).drop_last() == fields@.take(i as int));
        let name = match fields[i].get("name") {
            Some(n) => match n.as_str() {
                Some(s) => s.clone(),
                None => {
                    proof {
                        lemma_field_names_err(fields@, i as int);
                    }
                    return Err(Failure::MissingFieldName);
                },
            },
            None => {
                proof {
                    lemma_field_names_err(fields@, i as int);
                }
                return Err(Failure::MissingFieldName);
            },
        };
        let ghost old_names = names@;
        assert(fields@.take(i + 1).last() == fields@[i as int]);
        assert(fields@[i as int].member("name"@) == Some(JsonValue::Str(name)));
        names.push(name);
        assert(names@.drop_last() == old_names);
        assert(strings_view(names@) =~= strings_view(old_names).push(name@));
        i = i + 1;
    }
    assert(fields@.take(fields@.len() as int) == fields@);
    Ok(names)
}

/// A failing prefix makes the whole list fail the same way.
proof fn lemma_field_names_err(fields: Seq<JsonValue>, i: int)
    requires
        0 <= i < fields.len(),
        field_names(fields.take(i)) is Ok,
        !(fields[i].member("name"@) matches Some(JsonValue::Str(_))),
    ensures
        field_names(fields) == Err::<Seq<Seq<char>>, ErrorV>(Failure::MissingFieldName),
    decreases fields.len() - i,
{
    if i == fields.len() - 1 {
        assert(fields.take(i) == fields.drop_last());
    } else {
        assert(fields.drop_last().take(i) == fields.take(i));
        lemma_field_names_err(fields.drop_last(), i);
        assert(fields.drop_last()[i] == fields[i]);
    }
}

/// The length of an array value (zero for other values).
fn array_length(v: &JsonValue) -> (n: usize)
    ensures
        n == array_len(*v),
{
    match v {
        JsonValue::Array(a) => a.len(),
        _ => 0,
    }
}

/// A cell of a time column (see `time_cell`).
fn to_time_cell(c: Cell) -> (d: Cell)
    ensures
        cell_view(d) == time_cell(cell_view(c)),
{
    match c {
        SqlCell::Number(n) => match millis_to_rfc3339(n.as_str()) {
            Some(t) => SqlCell::Text(t),
            None => SqlCell::Number(n),
        },
        other => other,
    }
}

/// Cell `r` of a column (see `cell_at`).
fn cell_in_column(col: &JsonValue, r: usize, time: bool) -> (c: Cell)
    ensures
        cell_view(c) == cell_at(*col, r as int, time),
{
    match col {
        JsonValue::Array(a) => if r < a.len() {
            let c = cell_of_value(&a[r]);
            if time {
                to_time_cell(c)
            } else {
                c
            }
        } else {
            SqlCell::Text(String::new())
        },
        _ => SqlCell::Text(String::new()),
    }
}

/// For each field of a frame, whether it holds times (see `time_flags`).
fn time_columns(frame: &JsonValue) -> (flags: Vec<bool>)
    ensures
        flags@ == time_flags(*frame),
{
    let mut flags: Vec<bool> = Vec::new();
    let fields = match frame.get("schema") {
        Some(schema) => match schema.get("fields") {
            Some(f) => match f.as_array() {
                Some(a) => a,
                None => return flags,
            },
            None => return flags,
        },
        None => return flags,
    };
    let ghost want = fields@.map_values(|f: JsonValue| field_is_time(f));
    let mut i: usize = 0;
    while i < fields.len()
        invariant
            i <= fields@.len(),
            want == fields@.map_values(|f: JsonValue| field_is_time(f)),
            flags@ == want.take(i as int),
        decreases fields.len() - i,
    {
        let is_time = match fields[i].get("type") {
            Some(t) => match t.as_str() {
                Some(name) => str_eq(name.as_str(), "time"),
                None => false,
            },
            None => false,
        };
        assert(is_time == field_is_time(fields@[i as int]));
        flags.push(is_time);
        assert(flags@ =~= want.take(i + 1));
        i = i + 1;
    }
    assert(want.take(fields@.len() as int) =~= want);
    flags
}

/// Row `r` of a frame with the given column values and names.
pub open spec fn frame_row(
    values: Seq<JsonValue>,
    columns: Seq<Seq<char>>,
    flags: Seq<bool>,
    r: int,
) -> RowV {
    Seq::new(columns.len(), |c: int| (columns[c], cell_at(values[c], r, flag_at(flags, c))))
}

/// Row `r` of a frame.
fn build_row(values: &Vec<JsonValue>, columns: &[String], flags: &Vec<bool>, r: usize) -> (row: Row)
    requires
        values@.len() == columns@.len(),
    ensures
        row_view(row) == frame_row(values@, strings_view(columns@), flags@, r as int),
{
    let ghost want = frame_row(values@, strings_view(columns@), flags@, r as int);
    let mut row: Row = Vec::new();
    let mut c: usize = 0;
    while c < columns.len()
        invariant
            c <= columns@.len(),
            values@.len() == columns@.len(),
            want == frame_row(values@, strings_view(columns@), flags@, r as int),
            row@.len() == c,
            row_view(row) == want.take(c as int),
        decreases columns.len() - c,
    {
        let time = c < flags.len() && flags[c];
        let cell = cell_in_column(&values[c], r, time);
        let ghost old_row = row@;
        let ghost old_view = row_view(row);
        let name = columns[c].clone();
        assert(name@ == strings_view(columns@)[c as int]);
        row.push((name, cell));
        assert(row@.drop_last() == old_row);
        assert(row_view(row)[c as int] == (name@, cell_view(cell)));
        assert(want[c as int] == (name@, cell_view(cell)));
        assert forall|k: int| 0 <= k < c implies row_view(row)[k] == old_view[k] by {
            assert(row@[k] == old_row[k]);
        }
        assert(row_view(row) =~= want.take(c + 1));
        c = c + 1;
    }
    assert(want.take(columns@.len() as int) =~= want);
    row
}

/// The rows of a frame whose columns are `columns`.
pub fn extract_frame_rows(frame: &JsonValue, columns: &[String]) -> (r: Result<Vec<Row>, Error>)
    ensures
        match r {
            Ok(rows) => frame_rows_spec(*frame, strings_view(columns@)) == Ok::<
                Seq<RowV>,
                ErrorV,
            >(rows_view(rows@)),
            Err(e) => frame_rows_spec(*frame, strings_view(columns@)) == Err::<
                Seq<RowV>,
                ErrorV,
            >(e@),
        },
{
    let values = match frame.get("data") {
        Some(data) => match data.get("values") {
            Some(v) => match v.as_array() {
                Some(a) => a,
                None => return Err(Failure::MissingDataValues),
            },
            None => return Err(Failure::MissingDataValues),
        },
        None => return Err(Failure::MissingDataValues),
    };
    if values.len() != columns.len() {
        return Err(Failure::ColumnCountMismatch(values.len(), columns.len()));
    }
    let ghost result = if all_arrays(values@) {
        Ok(frame_table(values@, strings_view(columns@), time_flags(*frame)))
    } else {
        Err::<Seq<RowV>, ErrorV>(Failure::ColumnNotArray)
    };
    assert(frame_rows_spec(*frame, strings_view(columns@)) == result);
    let mut c: usize = 0;
    let mut row_count: usize = 0;
    while c < values.len()
        invariant
            c <= values@.len(),
            frame_rows_spec(*frame, strings_view(columns@)) == result,
            result == if all_arrays(values@) {
                Ok(frame_table(values@, strings_view(columns@), time_flags(*frame)))
            } else {
                Err::<Seq<RowV>, ErrorV>(Failure::ColumnNotArray)
            },
            forall|k: int| 0 <= k < c ==> #[trigger] values@[k] is Array,
            row_count == max_array_len(values@.take(c as int)),
        decreases values.len() - c,
    {
        if values[c].as_array().is_none() {
            assert(!all_arrays(values@));
            return Err(Failure::ColumnNotArray);
        }
        let l = array_length(&values[c]);
        assert(values@.take(c + 1).drop_last() == values@.take(c as int));
        if l > row_count {
            row_count = l;
        }
        c = c + 1;
    }
    assert(values@.take(values@.len() as int) == values@);
    assert(all_arrays(values@));
    let ghost cols = strings_view(columns@);
    let flags = time_columns(frame);
    let ghost table = frame_table(values@, cols, flags@);
    let mut rows: Vec<Row> = Vec::new();
    let mut r: usize = 0;
    while r < row_count
        invariant
            r <= row_count,
            row_count == max_array_len(values@),
            values@.len() == columns@.len(),
            cols == strings_view(columns@),
            table == frame_table(values@, cols, flags@),
            rows@.len() == r,
            rows_view(rows@) == table.take(r as int),
        decreases row_count - r,
    {
        let row = build_row(values, columns, &flags, r);
        let ghost old_rows = rows@;
        let ghost rv = row_view(row);
        rows.push(row);
        assert(rows@.drop_last() == old_rows);
        assert(rows_view(rows@)[r as int] == rv);
        assert(table[r as int] =~= row_view(row));
        assert(rows_view(rows@) =~= table.take(r + 1));
        r = r + 1;
    }
    assert(table.take(row_count as int) =~= table);
    Ok(rows)
}

/// Whether two lists of texts are equal.
pub fn strings_equal(a: &Vec<String>, b: &Vec<String>) -> (r: bool)
    ensures
        r == (strings_view(a@) == strings_view(b@)),
{
    if a.len() != b.len() {
        assert(strings_view(a@).len() != strings_view(b@).len());
        return false;
    }
    let mut i: usize = 0;
    while i < a.len()
        invariant
            i <= a@.len(),
            a@.len() == b@.len(),
            forall|k: int| 0 <= k < i ==> a@[k]@ == b@[k]@,
        decreases a.len() - i,
    {
        if !crate::text::str_eq(a[i].as_str(), b[i].as_str()) {
            assert(strings_view(a@)[i as int] != strings_view(b@)[i as int]);
            return false;
        }
        i = i + 1;
    }
    assert(strings_view(a@) =~= strings_view(b@));
    true
}

/// Once gathering fails on a prefix of the frames, it fails the same way on all of them.
proof fn lemma_fold_err_prefix(frames: Seq<JsonValue>, i: int)
    requires
        0 <= i <= frames.len(),
        frames_fold(frames.take(i)) is Err,
    ensures
        frames_fold(frames) == frames_fold(frames.take(i)),
    decreases frames.len() - i,
{
    if i < frames.len() {
        assert(frames.drop_last().take(i) == frames.take(i));
        lemma_fold_err_prefix(frames.drop_last(), i);
    } else {
        assert(frames.take(i) == frames);
    }
}

/// Reads the table out of a `/api/ds/query` response: the query result with
/// the least key,
/// its error if it reports one, and otherwise the rows of all its frames.
pub fn parse_ds_query_result(payload: &JsonValue) -> (r: Result<ParsedSqlTable, Error>)
    ensures
        match r {
            Ok(t) => ds_query_spec(*payload) == Ok::<
                (Seq<Seq<char>>, Seq<RowV>),
                ErrorV,
            >(parsed_view(t)),
            Err(e) => ds_query_spec(*payload) == Err::<
                (Seq<Seq<char>>, Seq<RowV>),
                ErrorV,
            >(e@),
        },
{
    let results = match payload.get("results") {
        Some(v) => match v.as_object() {
            Some(o) => o,
            None => return Err(Failure::MissingResults),
        },
        None => return Err(Failure::MissingResults),
    };
    if results.len() == 0 {
        return Err(Failure::NoQueryResults);
    }
    let first = &results[least_key_position(results)].1;
    if let Some(e) = first.get("error") {
        if let Some(msg) = e.as_str() {
            return Err(Failure::DatasourceQueryFailed(msg.clone()));
        }
    }
    let empty: Vec<JsonValue> = Vec::new();
    let frames: &Vec<JsonValue> = match first.get("frames") {
        Some(f) => match f.as_array() {
            Some(a) => a,
            None => &empty,
        },
        None => &empty,
    };
    assert(empty@ =~= Seq::<JsonValue>::empty());
    assert(ds_query_spec(*payload) == frames_fold(frames@));
    let mut columns: Vec<String> = Vec::new();
    let mut rows: Vec<Row> = Vec::new();
    let mut i: usize = 0;
    assert(frames@.take(0) =~= Seq::<JsonValue>::empty());
    assert(strings_view(columns@) =~= Seq::<Seq<char>>::empty());
    assert(rows_view(rows@) =~= Seq::<RowV>::empty());
    while i < frames.len()
        invariant
            i <= frames@.len(),
            ds_query_spec(*payload) == frames_fold(frames@),
            frames_fold(frames@.take(i as int)) == Ok::<
                (Seq<Seq<char>>, Seq<RowV>),
                ErrorV,
            >((strings_view(columns@), rows_view(rows@))),
        decreases frames.len() - i,
    {
        let ghost pre = frames@.take(i as int);
        let ghost cur = frames@.take(i + 1);
        assert(cur.drop_last() == pre);
        assert(cur.last() == frames@[i as int]);
        let frame_columns = match extract_frame_columns(&frames[i]) {
            Ok(c) => c,
            Err(e) => {
                proof {
                    lemma_fold_err_prefix(frames@, i + 1);
                }
                return Err(e);
            },
        };
        if columns.len() == 0 {
            columns = frame_columns;
        } else if !strings_equal(&columns, &frame_columns) {
            proof {
                lemma_fold_err_prefix(frames@, i + 1);
            }
            return Err(Failure::FrameColumnsDiffer);
        }
        let mut frame_rows = match extract_frame_rows(&frames[i], columns.as_slice()) {
            Ok(fr) => fr,
            Err(e) => {
                proof {
                    lemma_fold_err_prefix(frames@, i + 1);
                }
                return Err(e);
            },
        };
        let ghost old_rows = rows@;
        let ghost fresh = frame_rows@;
        rows.append(&mut frame_rows);
        assert(rows@ == old_rows + fresh);
        assert(rows_view(rows@) =~= rows_view(old_rows) + rows_view(fresh));
        i = i + 1;
    }
    assert(frames@.take(frames@.len() as int) == frames@);
    Ok(ParsedSqlTable { columns, rows })
}

/// The cell a column's value gives when the column holds times: a number of
/// milliseconds since the epoch becomes its RFC 3339 text (when it is one
/// before the year 10000), anything else stays as it is.
pub open spec fn as_time_cell(plain: CellV) -> CellV {
    if plain matches SqlCell::Number(n) && millis_rfc3339(n) is Some {
        SqlCell::Text(millis_rfc3339(plain->Number_0)->Some_0)
    } else {
        plain
    }
}

/// Law: a column is read as a time column exactly when its schema field is
/// declared `"type": "time"`, whatever its position: in every row, the cell of
/// such a column is the column's value as RFC 3339 text when that value is a
/// number of milliseconds (see `as_time_cell`), and the cell of any other
/// column is its value as it stands.
pub proof fn law_time_columns_follow_fields(
    frame: JsonValue,
    columns: Seq<Seq<char>>,
    values: Vec<JsonValue>,
    fields: Vec<JsonValue>,
)
    requires
        frame.member("data"@) matches Some(data) && data.member("values"@) == Some(
            JsonValue::Array(values),
        ),
        frame.member("schema"@) matches Some(schema) && schema.member("fields"@) == Some(
            JsonValue::Array(fields),
        ),
    ensures
        frame_rows_spec(frame, columns) matches Ok(rows) ==> forall|r: int, c: int|
            0 <= r < rows.len() && 0 <= c < columns.len() && c < fields@.len() ==> (
            #[trigger] rows[r][c]) == (
                columns[c],
                if field_is_time(fields@[c]) {
                    as_time_cell(cell_at(values@[c], r, false))
                } else {
                    cell_at(values@[c], r, false)
                },
            ),
{
    if let Ok(rows) = frame_rows_spec(frame, columns) {
        let flags = time_flags(frame);
        assert(flags == fields@.map_values(|f: JsonValue| field_is_time(f)));
        assert(rows == frame_table(values@, columns, flags));
        assert forall|r: int, c: int|
            0 <= r < rows.len() && 0 <= c < columns.len() && c < fields@.len() implies (
            #[trigger] rows[r][c]) == (
                columns[c],
                if field_is_time(fields@[c]) {
                    as_time_cell(cell_at(values@[c], r, false))
                } else {
                    cell_at(values@[c], r, false)
                },
            ) by {
            assert(rows[r] == frame_row(values@, columns, flags, r));
            assert(flag_at(flags, c) == field_is_time(fields@[c]));
        }
    }
}

/// The column names of a row, in order.
pub open spec fn row_keys(row: RowV) -> Seq<Seq<char>> {
    row.map_values(|p: (Seq<char>, CellV)| p.0)
}

/// Every row of a frame's table has the frame's columns; without columns
/// there are no rows.
proof fn lemma_frame_table_keys(values: Seq<JsonValue>, columns: Seq<Seq<char>>, flags: Seq<bool>)
    requires
        values.len() == columns.len(),
    ensures
        columns.len() == 0 ==> frame_table(values, columns, flags).len() == 0,
        forall|i: int|
            0 <= i < frame_table(values, columns, flags).len() ==> row_keys(
                #[trigger] frame_table(values, columns, flags)[i],
            ) == columns,
{
    assert forall|i: int| 0 <= i < frame_table(values, columns, flags).len() implies row_keys(
        #[trigger] frame_table(values, columns, flags)[i],
    ) == columns by {
        assert(row_keys(frame_table(values, columns, flags)[i]) =~= columns);
    }
}

/// The rows read from one frame have the columns they were read under.
proof fn lemma_frame_rows_keys(frame: JsonValue, columns: Seq<Seq<char>>)
    ensures
        frame_rows_spec(frame, columns) matches Ok(fr) ==> {
            &&& columns.len() == 0 ==> fr.len() == 0
            &&& forall|i: int| 0 <= i < fr.len() ==> row_keys(#[trigger] fr[i]) == columns
        },
{
    match frame.member("data"@) {
        Some(data) => match data.member("values"@) {
            Some(JsonValue::Array(v)) => if v@.len() == columns.len() {
                lemma_frame_table_keys(v@, columns, time_flags(frame));
            },
            _ => {},
        },
        None => {},
    }
}

/// Law: when frames are gathered into one table, every row has exactly the
/// table's columns, in order (a table without columns has no rows), and every
/// frame named either no column or exactly those columns: a frame whose
/// column set differs from the first one's makes the gathering fail.
pub proof fn law_frames_share_columns(frames: Seq<JsonValue>)
    ensures
        frames_fold(frames) matches Ok((cols, rows)) ==> {
            &&& cols.len() == 0 ==> rows.len() == 0
            &&& forall|i: int| 0 <= i < rows.len() ==> row_keys(#[trigger] rows[i]) == cols
            &&& forall|k: int|
                0 <= k < frames.len() ==> (#[trigger] frame_columns_spec(frames[k]) matches Ok(
                    fc,
                ) && (fc.len() == 0 || fc == cols))
        },
    decreases frames.len(),
{
    if frames.len() > 0 {
        let init = frames.drop_last();
        law_frames_share_columns(init);
        if let Ok((c0, r0)) = frames_fold(init) {
            if let Ok(fc) = frame_columns_spec(frames.last()) {
                if !(c0.len() != 0 && c0 != fc) {
                    let used = if c0.len() == 0 {
                        fc
                    } else {
                        c0
                    };
                    lemma_frame_rows_keys(frames.last(), used);
                    if let Ok(fr) = frame_rows_spec(frames.last(), used) {
                        let rows = r0 + fr;
                        assert forall|i: int| 0 <= i < rows.len() implies row_keys(
                            #[trigger] rows[i],
                        ) == used by {
                            if i < r0.len() {
                                assert(rows[i] == r0[i]);
                            } else {
                                assert(rows[i] == fr[i - r0.len()]);
                            }
                        }
                        assert forall|k: int| 0 <= k < frames.len() implies (
                        #[trigger] frame_columns_spec(frames[k]) matches Ok(fc2) && (fc2.len()
                            == 0 || fc2 == used)) by {
                            if k < init.len() {
                                assert(frames[k] == init[k]);
                            }
                        }
                    }
                }
            }
        }
    }
}

/// Law: in the table read from a `/api/ds/query` answer, every row has
/// exactly the table's columns, in order.
pub proof fn law_rows_follow_columns(payload: JsonValue)
    ensures
        ds_query_spec(payload) matches Ok((cols, rows)) ==> forall|i: int|
            0 <= i < rows.len() ==> row_keys(#[trigger] rows[i]) == cols,
{
    if let Some(JsonValue::Object(results)) = payload.member("results"@) {
        if results@.len() > 0 {
            if let Some(JsonValue::Array(frames)) = results@[least_key_index(results@)].1.member(
                "frames"@,
            ) {
                law_frames_share_columns(frames@);
            }
        }
    }
}

// ---------------------------------------------------------------------------
// Command results
// ---------------------------------------------------------------------------

/// A datasource may be queried when its type is known as SQL, or whatever its
/// type when `--force` is given.
pub fn check_sql_datasource(ds_type: &str, force: bool) -> (r: Result<(), Error>)
    ensures
        match r {
            Ok(_) => force || sql_kind(ds_type@) is Some,
            Err(e) => !force && sql_kind(ds_type@) is None && e@ == Failure::NotSqlDatasource(
                ds_type@,
            ),
        },
{
    if normalize_sql_type(ds_type).is_none() && !force {
        return Err(Failure::NotSqlDatasource(owned(ds_type)));
    }
    Ok(())
}

/// The catalog query `sql schemas` runs against a datasource of type
/// `ds_type`: the type must be a supported SQL type.
pub open spec fn schemas_spec(ds_type: Seq<char>) -> Result<Seq<char>, ErrorV> {
    match sql_kind(ds_type) {
        None => Err(Failure::UnsupportedSqlDatasource(ds_type)),
        Some(k) => schemas_query_spec(k),
    }
}

/// The catalog query of `sql schemas` (see `schemas_spec`).
pub fn schemas(ds_type: &str) -> (r: Result<String, Error>)
    ensures
        crate::time::text_result_view(r) == schemas_spec(ds_type@),
{
    let kind = match require_supported_sql_type(ds_type) {
        Ok(k) => k,
        Err(e) => return Err(e),
    };
    build_schemas_query(kind)
}

/// The catalog query `sql tables` runs against a datasource of type `ds_type`:
/// the type must be a supported SQL type.
pub open spec fn tables_spec(ds_type: Seq<char>, schema: Option<Seq<char>>, like: Option<Seq<char>>) -> Result<Seq<char>, ErrorV> {
    match sql_kind(ds_type) {
        None => Err(Failure::UnsupportedSqlDatasource(ds_type)),
        Some(k) => tables_query_spec(k, schema, like),
    }
}

/// The catalog query of `sql tables` (see `tables_spec`).
pub fn tables(ds_type: &str, args: &SqlTablesArgs) -> (r: Result<String, Error>)
    ensures
        crate::time::text_result_view(r) == tables_spec(ds_type@, opt_string_view(args.schema), opt_string_view(args.like)),
{
    let kind = match require_supported_sql_type(ds_type) {
        Ok(k) => k,
        Err(e) => return Err(e),
    };
    build_tables_query(kind, opt_str_of(&args.schema), opt_str_of(&args.like))
}

/// The catalog query `sql describe` runs against a datasource of type
/// `ds_type`: the type must be a supported SQL type, then the table name is
/// split into schema and table.
pub open spec fn describe_spec(ds_type: Seq<char>, table: Seq<char>, schema: Option<Seq<char>>) -> Result<Seq<char>, ErrorV> {
    match sql_kind(ds_type) {
        None => Err(Failure::UnsupportedSqlDatasource(ds_type)),
        Some(k) => match schema_table_spec(table, schema) {
            Err(e) => Err(e),
            Ok((s, t)) => describe_query_spec(k, s, t),
        },
    }
}

/// The catalog query of `sql describe` (see `describe_spec`).
pub fn describe(ds_type: &str, args: &SqlDescribeArgs) -> (r: Result<String, Error>)
    ensures
        crate::time::text_result_view(r) == describe_spec(ds_type@, args.table@, opt_string_view(args.schema)),
{
    let kind = match require_supported_sql_type(ds_type) {
        Ok(k) => k,
        Err(e) => return Err(e),
    };
    let (schema, table) = match resolve_schema_and_table(args.table.as_str(), opt_str_of(&args.schema)) {
        Ok(p) => p,
        Err(e) => return Err(e),
    };
    build_describe_query(kind, opt_str_of(&schema), table.as_str())
}

/// What `sql describe` makes of the catalog's answer: a table for which no
/// column came back does not exist, and the answer is refused with the table's
/// name (as split from `<schema.table>`); otherwise it is kept as it is.
pub fn require_table_found(args: &SqlDescribeArgs, parsed: ParsedSqlTable) -> (r: Result<
    ParsedSqlTable,
    Error,
>)
    ensures
        match schema_table_spec(args.table@, opt_string_view(args.schema)) {
            Err(e) => r matches Err(x) && x@ == e,
            Ok((_, t)) => if parsed.rows@.len() == 0 {
                r matches Err(x) && x@ == Failure::<Seq<char>>::TableNotFound(t)
            } else {
                r == Ok::<ParsedSqlTable, Error>(parsed)
            },
        },
{
    let (_, table) = match resolve_schema_and_table(args.table.as_str(), opt_str_of(&args.schema)) {
        Ok(p) => p,
        Err(e) => return Err(e),
    };
    if parsed.rows.len() == 0 {
        return Err(Failure::TableNotFound(table));
    }
    Ok(parsed)
}

/// The result of a SQL command.
#[derive(Debug)]
pub struct SqlQueryResult {
    pub datasource_uid: String,
    pub datasource_type: String,
    pub query: String,
    pub columns: Vec<String>,
    pub row_count: usize,
    pub total_row_count: usize,
    pub truncated: bool,
    pub rows: Vec<Row>,
}

/// The smaller of two numbers.
pub open spec fn min_nat(a: nat, b: nat) -> nat {
    if a < b {
        a
    } else {
        b
    }
}

/// The result of a SQL command from the table the datasource returned: at
/// most `limit` of its rows, in order, with the number kept, the number
/// returned, and whether rows were left out.
pub fn run_sql_query(
    datasource_uid: String,
    datasource_type: String,
    query: String,
    parsed: ParsedSqlTable,
    limit: usize,
) -> (r: SqlQueryResult)
    ensures
        r.datasource_uid == datasource_uid,
        r.datasource_type == datasource_type,
        r.query == query,
        r.columns == parsed.columns,
        r.total_row_count == parsed.rows@.len(),
        r.row_count == min_nat(limit as nat, parsed.rows@.len()),
        r.rows@ == parsed.rows@.take(r.row_count as int),
        r.truncated == (r.row_count < r.total_row_count),
        r.truncated == (limit < parsed.rows@.len()),
{
    let total_row_count = parsed.rows.len();
    let mut rows = parsed.rows;
    rows.truncate(limit);
    let row_count = rows.len();
    let truncated = row_count < total_row_count;
    SqlQueryResult {
        datasource_uid,
        datasource_type,
        query,
        columns: parsed.columns,
        row_count,
        total_row_count,
        truncated,
        rows,
    }
}

/// The cell of a row under `column`: that of the later pair with that name, or
/// the empty text.
pub open spec fn row_cell(pairs: RowV, column: Seq<char>) -> CellV
    decreases pairs.len(),
{
    if pairs.len() == 0 {
        empty_cell()
    } else if pairs.last().0 == column {
        pairs.last().1
    } else {
        row_cell(pairs.drop_last(), column)
    }
}

/// A copy of a cell.
fn copy_cell(c: &Cell) -> (d: Cell)
    ensures
        cell_view(d) == cell_view(*c),
{
    match c {
        SqlCell::Null => SqlCell::Null,
        SqlCell::Bool(b) => SqlCell::Bool(*b),
        SqlCell::Number(n) => SqlCell::Number(n.clone()),
        SqlCell::Text(t) => SqlCell::Text(t.clone()),
        SqlCell::Nested(j) => SqlCell::Nested(j.clone()),
    }
}

/// The cell of a row under `column` (see `row_cell`).
pub fn row_value(row: &Row, column: &str) -> (r: Cell)
    ensures
        cell_view(r) == row_cell(row_view(*row), column@),
{
    let ghost rv = row_view(*row);
    let mut j: usize = row.len();
    assert(rv.take(j as int) == rv);
    while j > 0
        invariant
            j <= row@.len(),
            rv == row_view(*row),
            row_cell(rv, column@) == row_cell(rv.take(j as int), column@),
        decreases j,
    {
        let ghost pre = rv.take(j as int);
        assert(pre.last() == rv[j - 1]);
        assert(pre.drop_last() == rv.take(j - 1));
        if str_eq(row[j - 1].0.as_str(), column) {
            return copy_cell(&row[j - 1].1);
        }
        j = j - 1;
    }
    SqlCell::Text(String::new())
}

/// The cells of a result row as they read in a table, one per column.
pub open spec fn result_cells(columns: Seq<Seq<char>>, row: RowV) -> Seq<Seq<char>> {
    columns.map_values(|c: Seq<char>| cell_plain(row_cell(row, c)))
}

/// The note shown under a table whose rows were cut.
pub open spec fn truncation_note(row_count: nat, total: nat) -> Seq<char> {
    "\nShowing "@ + decimal(row_count) + " of "@ + decimal(total) + " rows. Re-run with a higher --limit to see more.\n"@
}

/// The text shown for a result without columns.
pub const NO_TABULAR_RESULT: &'static str = "No tabular result returned.\n";

impl TableOutput for SqlQueryResult {
    open spec fn table_text(&self) -> Seq<char> {
        if self.columns@.len() == 0 {
            NO_TABULAR_RESULT@
        } else {
            aligned_table(
                strings_view(self.columns@),
                rows_view(self.rows@).map_values(
                    |r: RowV| result_cells(strings_view(self.columns@), r),
                ),
            ) + if self.truncated {
                truncation_note(self.row_count as nat, self.total_row_count as nat)
            } else {
                Seq::empty()
            }
        }
    }

    fn render_table(&self) -> (s: String) {
        if self.columns.len() == 0 {
            return owned(NO_TABULAR_RESULT);
        }
        let ghost cols = strings_view(self.columns@);
        let mut headers: Vec<&str> = Vec::new();
        let mut c: usize = 0;
        while c < self.columns.len()
            invariant
                c <= self.columns@.len(),
                headers@.len() == c,
                forall|k: int| 0 <= k < c ==> (#[trigger] headers@[k])@ == self.columns@[k]@,
            decreases self.columns.len() - c,
        {
            headers.push(self.columns[c].as_str());
            c = c + 1;
        }
        assert(headers_view(headers@) =~= cols);
        let ghost want = rows_view(self.rows@).map_values(
            |r: RowV| result_cells(cols, r),
        );
        let mut rows: Vec<Vec<String>> = Vec::new();
        let mut i: usize = 0;
        while i < self.rows.len()
            invariant
                i <= self.rows@.len(),
                cols == strings_view(self.columns@),
                want == rows_view(self.rows@).map_values(
                    |r: RowV| result_cells(cols, r),
                ),
                rows@.len() == i,
                forall|k: int| 0 <= k < i ==> #[trigger] rows@[k]@.len() == self.columns@.len(),
                grid_view(rows@) == want.take(i as int),
            decreases self.rows.len() - i,
        {
            let mut cells: Vec<String> = Vec::new();
            let mut c: usize = 0;
            while c < self.columns.len()
                invariant
                    c <= self.columns@.len(),
                    i < self.rows@.len(),
                    cols == strings_view(self.columns@),
                    cells@.len() == c,
                    forall|k: int|
                        0 <= k < c ==> (#[trigger] cells@[k])@ == cell_plain(
                            row_cell(row_view(self.rows@[i as int]), cols[k]),
                        ),
                decreases self.columns.len() - c,
            {
                let cell = row_value(&self.rows[i], self.columns[c].as_str());
                cells.push(cell_to_text(&cell));
                c = c + 1;
            }
            assert(cells_view(cells) =~= result_cells(cols, row_view(self.rows@[i as int])));
            let ghost before = grid_view(rows@);
            rows.push(cells);
            assert(grid_view(rows@) =~= before.push(cells_view(cells)));
            assert(want.take(i + 1) =~= want.take(i as int).push(want[i as int]));
            i = i + 1;
        }
        assert(want.take(self.rows@.len() as int) =~= want);
        let mut s = render_aligned_table(headers.as_slice(), rows.as_slice());
        if self.truncated {
            s.append("\nShowing ");
            let a = u64_decimal(self.row_count as u64);
            s.append(a.as_str());
            s.append(" of ");
            let b = u64_decimal(self.total_row_count as u64);
            s.append(b.as_str());
            s.append(" rows. Re-run with a higher --limit to see more.\n");
        }
        s
    }
}

} // verus!
