//! Grafana datasources: type matching, and the listing sorted by type and name.
use vstd::prelude::*;

use crate::sorting::{rank_consistent, stable_sort, stable_sort_of, Ranked, permutation_of};
use crate::output::{aligned_table, cells_view, grid_view, headers_view, render_aligned_table, TableOutput};
use crate::text::{
    chars_eq_str, chars_less, chars_of, i64_decimal, int_decimal, opt_string_view, owned, lemma_seq_less_asym, lemma_seq_less_total,
    lemma_seq_less_trans, lower_chars, lower_seq, seq_less, string_of, trim_chars, trim_seq,
};

verus! {

broadcast use vstd::string::group_string_axioms;

/// A datasource as Grafana's `/api/datasources` describes it.
#[derive(Debug)]
pub struct DataSource {
    pub id: i64,
    pub uid: String,
    pub name: String,
    pub ds_type: String,
    pub is_default: bool,
}

/// The listing order of a datasource: its type, then its name, both ASCII lower-cased.
pub open spec fn listing_key(d: DataSource) -> (Seq<char>, Seq<char>) {
    (lower_seq(d.ds_type@), lower_seq(d.name@))
}

/// Lexicographic order on pairs of texts.
pub open spec fn pair_less(a: (Seq<char>, Seq<char>), b: (Seq<char>, Seq<char>)) -> bool {
    seq_less(a.0, b.0) || (a.0 == b.0 && seq_less(a.1, b.1))
}

impl Ranked for DataSource {
    open spec fn precedes(self, other: Self) -> bool {
        pair_less(listing_key(self), listing_key(other))
    }

    fn ranks_before(&self, other: &Self) -> (b: bool) {
        let t1 = lower_chars(&chars_of(self.ds_type.as_str()));
        let t2 = lower_chars(&chars_of(other.ds_type.as_str()));
        if chars_less(&t1, &t2) {
            return true;
        }
        if !crate::text::chars_eq(&t1, &t2) {
            return false;
        }
        let n1 = lower_chars(&chars_of(self.name.as_str()));
        let n2 = lower_chars(&chars_of(other.name.as_str()));
        chars_less(&n1, &n2)
    }
}

/// `pair_less` is a strict total order.
pub proof fn lemma_pair_less_order(a: (Seq<char>, Seq<char>), b: (Seq<char>, Seq<char>), c: (
    Seq<char>,
    Seq<char>,
))
    ensures
        pair_less(a, b) ==> !pair_less(b, a),
        pair_less(a, b) && pair_less(b, c) ==> pair_less(a, c),
        a == b || pair_less(a, b) || pair_less(b, a),
{
    lemma_seq_less_asym(a.0, b.0);
    lemma_seq_less_asym(a.1, b.1);
    lemma_seq_less_total(a.0, b.0);
    lemma_seq_less_total(a.1, b.1);
    if pair_less(a, b) && pair_less(b, c) {
        if seq_less(a.0, b.0) && seq_less(b.0, c.0) {
            lemma_seq_less_trans(a.0, b.0, c.0);
        }
        if a.0 == b.0 && b.0 == c.0 && seq_less(a.1, b.1) && seq_less(b.1, c.1) {
            lemma_seq_less_trans(a.1, b.1, c.1);
        }
    }
}

/// The listing order is consistent on every list of datasources.
pub proof fn lemma_listing_rank_consistent(s: Seq<DataSource>)
    ensures
        rank_consistent(s),
{
    assert forall|i: int, j: int|
        0 <= i < s.len() && 0 <= j < s.len() && #[trigger] s[i].precedes(s[j]) implies !s[j].precedes(
        s[i],
    ) by {
        lemma_pair_less_order(listing_key(s[i]), listing_key(s[j]), listing_key(s[j]));
    }
    assert forall|x: int, a: int, b: int|
        0 <= x < s.len() && 0 <= a < s.len() && 0 <= b < s.len() && #[trigger] s[x].precedes(s[a])
            && !#[trigger] s[b].precedes(s[a]) implies s[x].precedes(s[b]) by {
        let kx = listing_key(s[x]);
        let ka = listing_key(s[a]);
        let kb = listing_key(s[b]);
        lemma_pair_less_order(kx, ka, kb);
        lemma_pair_less_order(ka, kb, kb);
        lemma_pair_less_order(kb, ka, ka);
    }
}

/// A datasource type in the form used for matching: trimmed, ASCII lower-cased,
/// and with the SQL plugin aliases folded onto `postgres`, `mysql` and `mssql`.
pub open spec fn datasource_type_key(value: Seq<char>) -> Seq<char> {
    let n = lower_seq(trim_seq(value));
    if n == "postgres"@ || n == "postgresql"@ || n == "grafana-postgresql-datasource"@ {
        "postgres"@
    } else if n == "mysql"@ || n == "grafana-mysql-datasource"@ {
        "mysql"@
    } else if n == "mssql"@ || n == "sqlserver"@ || n == "grafana-mssql-datasource"@ {
        "mssql"@
    } else {
        n
    }
}

/// Law: every SQL plugin alias, in any case and with surrounding spaces, has
/// the matching form of its dialect, so a `--type` filter naming the dialect
/// selects it: the PostgreSQL names match `postgres`, the MySQL names `mysql`,
/// and the SQL Server names `mssql`.
pub proof fn law_sql_aliases_fold(value: Seq<char>)
    ensures
        ({
            let n = lower_seq(trim_seq(value));
            n == "postgresql"@ || n == "grafana-postgresql-datasource"@
        }) ==> datasource_type_key(value) == "postgres"@,
        lower_seq(trim_seq(value)) == "grafana-mysql-datasource"@ ==> datasource_type_key(value)
            == "mysql"@,
        ({
            let n = lower_seq(trim_seq(value));
            n == "sqlserver"@ || n == "grafana-mssql-datasource"@
        }) ==> datasource_type_key(value) == "mssql"@,
{
    reveal_strlit("postgres");
    reveal_strlit("postgresql");
    reveal_strlit("grafana-postgresql-datasource");
    reveal_strlit("mysql");
    reveal_strlit("grafana-mysql-datasource");
    reveal_strlit("mssql");
    reveal_strlit("sqlserver");
    reveal_strlit("grafana-mssql-datasource");
    assert("grafana-mysql-datasource"@[9] != "grafana-mssql-datasource"@[9]);
}

/// The matching form of a datasource type (see `datasource_type_key`).
pub fn normalize_datasource_type(value: &str) -> (r: String)
    ensures
        r@ == datasource_type_key(value@),
{
    let n = lower_chars(&trim_chars(&chars_of(value)));
    if chars_eq_str(&n, "postgres") || chars_eq_str(&n, "postgresql") || chars_eq_str(
        &n,
        "grafana-postgresql-datasource",
    ) {
        crate::text::owned("postgres")
    } else if chars_eq_str(&n, "mysql") || chars_eq_str(&n, "grafana-mysql-datasource") {
        crate::text::owned("mysql")
    } else if chars_eq_str(&n, "mssql") || chars_eq_str(&n, "sqlserver") || chars_eq_str(
        &n,
        "grafana-mssql-datasource",
    ) {
        crate::text::owned("mssql")
    } else {
        string_of(&n)
    }
}

/// Whether a `--type` filter selects a datasource type.
pub fn datasource_type_matches(filter: &str, ds_type: &str) -> (b: bool)
    ensures
        b == (datasource_type_key(filter@) == datasource_type_key(ds_type@)),
{
    let a = normalize_datasource_type(filter);
    let b = normalize_datasource_type(ds_type);
    crate::text::str_eq(a.as_str(), b.as_str())
}

/// Type matching is an equivalence: every type matches itself, a filter
/// matches a type exactly when that type, used as a filter, matches the
/// filter, and matches chain (so `postgres`, `postgresql` and
/// `grafana-postgresql-datasource` select each other, in any case).
pub proof fn law_type_match_is_equivalence(a: Seq<char>, b: Seq<char>, c: Seq<char>)
    ensures
        datasource_type_key(a) == datasource_type_key(a),
        (datasource_type_key(a) == datasource_type_key(b)) == (datasource_type_key(b)
            == datasource_type_key(a)),
        datasource_type_key(a) == datasource_type_key(b) && datasource_type_key(b)
            == datasource_type_key(c) ==> datasource_type_key(a) == datasource_type_key(c),
{
}

/// The datasources that a type filter keeps, in their order (all without a filter).
pub open spec fn kept(datasources: Seq<DataSource>, filter: Option<Seq<char>>) -> Seq<DataSource> {
    match filter {
        Some(f) => datasources.filter(
            |d: DataSource| datasource_type_key(f) == datasource_type_key(d.ds_type@),
        ),
        None => datasources,
    }
}

/// Keeps the datasources whose type matches the filter, in their order.
fn keep_matching(datasources: Vec<DataSource>, filter: &str) -> (out: Vec<DataSource>)
    ensures
        out@ == kept(datasources@, Some(filter@)),
{
    let ghost orig = datasources@;
    let ghost pred = |d: DataSource| datasource_type_key(filter@) == datasource_type_key(d.ds_type@);
    let n = datasources.len();
    let mut rest = datasources;
    let mut out: Vec<DataSource> = Vec::new();
    let mut i: usize = 0;
    assert(orig.take(0).filter(pred) =~= Seq::<DataSource>::empty());
    while i < n
        invariant
            i <= n,
            n == orig.len(),
            rest@ == orig.subrange(i as int, n as int),
            out@ == orig.take(i as int).filter(pred),
            pred == (|d: DataSource| datasource_type_key(filter@) == datasource_type_key(d.ds_type@)),
        decreases n - i,
    {
        let d = rest.remove(0);
        assert(d == orig[i as int]);
        assert(rest@ == orig.subrange(i + 1, n as int));
        assert(orig.take(i + 1).drop_last() == orig.take(i as int));
        assert(orig.take(i + 1).last() == d);
        proof {
            reveal_with_fuel(Seq::filter, 1);
        }
        let keep = datasource_type_matches(filter, d.ds_type.as_str());
        assert(keep == pred(d));
        if keep {
            out.push(d);
        }
        i = i + 1;
    }
    assert(orig.take(n as int) == orig);
    out
}

/// Keeps the datasources of the given type (if one is given) and orders them by
/// type, then name, ignoring ASCII case; datasources that tie keep their order.
pub fn filter_and_sort(datasources: Vec<DataSource>, ds_type: Option<&str>) -> (out: Vec<DataSource>)
    ensures
        stable_sort_of(kept(datasources@, crate::time::opt_view(ds_type)), out@),
{
    let filtered = match ds_type {
        Some(f) => keep_matching(datasources, f),
        None => datasources,
    };
    proof {
        lemma_listing_rank_consistent(filtered@);
    }
    stable_sort(filtered)
}

/// The result of `datasources list`.
#[derive(Debug)]
pub struct DatasourceListResult {
    pub ds_type: Option<String>,
    pub count: usize,
    pub datasources: Vec<DataSource>,
}

/// The result of `datasources list` for the datasources Grafana listed: those
/// of the given type, sorted (see `filter_and_sort`), and their number.
pub fn list(datasources: Vec<DataSource>, ds_type: Option<String>) -> (r: DatasourceListResult)
    ensures
        stable_sort_of(kept(datasources@, opt_string_view(ds_type)), r.datasources@),
        r.count == r.datasources@.len(),
        r.ds_type == ds_type,
{
    let filter: Option<&str> = match &ds_type {
        Some(t) => Some(t.as_str()),
        None => None,
    };
    let sorted = filter_and_sort(datasources, filter);
    let count = sorted.len();
    DatasourceListResult { ds_type, count, datasources: sorted }
}

/// The cells of a datasource's row: ID, UID, type, name, and whether it is the default.
pub open spec fn datasource_cells(d: DataSource) -> Seq<Seq<char>> {
    seq![
        int_decimal(d.id as int),
        d.uid@,
        d.ds_type@,
        d.name@,
        if d.is_default {
            "yes"@
        } else {
            "no"@
        },
    ]
}

impl TableOutput for DatasourceListResult {
    open spec fn table_text(&self) -> Seq<char> {
        if self.datasources@.len() == 0 {
            match self.ds_type {
                Some(f) => "No datasources found for --type '"@ + f@ + "'.\n"@,
                None => "No datasources found.\n"@,
            }
        } else {
            aligned_table(
                seq!["ID"@, "UID"@, "TYPE"@, "NAME"@, "DEFAULT"@],
                self.datasources@.map_values(|d: DataSource| datasource_cells(d)),
            )
        }
    }

    fn render_table(&self) -> (s: String) {
        if self.datasources.len() == 0 {
            return match &self.ds_type {
                Some(f) => {
                    let mut s = owned("No datasources found for --type '");
                    s.append(f.as_str());
                    s.append("'.\n");
                    s
                },
                None => owned("No datasources found.\n"),
            };
        }
        let headers: [&str; 5] = ["ID", "UID", "TYPE", "NAME", "DEFAULT"];
        let mut rows: Vec<Vec<String>> = Vec::new();
        let mut i: usize = 0;
        while i < self.datasources.len()
            invariant
                i <= self.datasources@.len(),
                rows@.len() == i,
                forall|k: int| 0 <= k < i ==> #[trigger] rows@[k]@.len() == 5,
                grid_view(rows@) == self.datasources@.map_values(
                    |d: DataSource| datasource_cells(d),
                ).take(i as int),
            decreases self.datasources.len() - i,
        {
            let d = &self.datasources[i];
            let mut row: Vec<String> = Vec::new();
            row.push(i64_decimal(d.id));
            row.push(d.uid.clone());
            row.push(d.ds_type.clone());
            row.push(d.name.clone());
            row.push(if d.is_default { owned("yes") } else { owned("no") });
            let ghost before = grid_view(rows@);
            rows.push(row);
            assert(cells_view(row) =~= datasource_cells(*d));
            assert(grid_view(rows@) =~= before.push(datasource_cells(*d)));
            i = i + 1;
        }
        assert(self.datasources@.map_values(|d: DataSource| datasource_cells(d)).take(
            self.datasources@.len() as int,
        ) =~= self.datasources@.map_values(|d: DataSource| datasource_cells(d)));
        assert(headers_view(headers@) =~= seq!["ID"@, "UID"@, "TYPE"@, "NAME"@, "DEFAULT"@]);
        render_aligned_table(&headers, rows.as_slice())
    }
}

} // verus!
