//! Staging of the rows whose key or value a union-find table redirects.

use vstd::prelude::*;

use crate::catalog::sql_table;
use crate::ir::FunctionId;
use crate::text::{append_number, join_strings};
#[allow(unused_imports)]
use crate::catalog::table_text;
#[allow(unused_imports)]
use crate::text::{decimal, join, texts};

verus! {

/// The columns `c0`, `c1`, ...
pub open spec fn column_names(count: nat) -> Seq<Seq<char>> {
    Seq::new(count, |i: int| "c"@ + decimal(i as nat))
}

/// The columns of a row, under their own names.
pub open spec fn row_columns(row: Seq<char>, count: nat) -> Seq<Seq<char>> {
    Seq::new(count, |i: int| row + ".c"@ + decimal(i as nat) + " AS c"@ + decimal(i as nat))
}

/// The semi-naive restriction: the row or the edge is new.
pub open spec fn stale_freshness(row: Seq<char>, seminaive: bool, watermark: u64) -> Seq<char> {
    if seminaive {
        "AND ("@
            + row
            + ".__generation >= CAST('"@
            + decimal(watermark as nat)
            + "' AS UBIGINT)\n                       OR uf_row.__generation >= CAST('"@
            + decimal(watermark as nat)
            + "' AS UBIGINT))"@
    } else {
        Seq::empty()
    }
}

/// The statement that stages the rows of `table` whose column `stale` is the
/// key of an edge to another id, in a fixed order.
pub open spec fn stale_rows_sql(
    stage: Seq<char>,
    table: FunctionId,
    row: Seq<char>,
    union_find: FunctionId,
    stale: nat,
    bindings: Seq<Seq<char>>,
    seminaive: bool,
    watermark: u64,
) -> Seq<char> {
    "CREATE TEMP TABLE "@
        + stage
        + " AS\n             WITH bindings AS (\n                 SELECT DISTINCT "@
        + join(bindings, ", "@)
        + "\n                 FROM "@
        + table_text(table)
        + " AS "@
        + row
        + "\n                 JOIN "@
        + table_text(union_find)
        + " AS uf_row\n                   ON "@
        + row
        + ".c"@
        + decimal(stale)
        + " IS NOT DISTINCT FROM uf_row.c0\n                 WHERE "@
        + row
        + ".c"@
        + decimal(stale)
        + " IS DISTINCT FROM uf_row.c1\n                   "@
        + stale_freshness(row, seminaive, watermark)
        + "\n             )\n             SELECT bindings.*,\n                    row_number() OVER (ORDER BY "@
        + join(column_names(bindings.len()), ", "@)
        + ") AS __match_ordinal\n             FROM bindings"@
}

/// Renders the columns `c0`, `c1`, ...
pub fn render_column_names(count: usize) -> (columns: Vec<String>)
    ensures
        texts(columns@) == column_names(count as nat),
{
    let mut columns: Vec<String> = Vec::new();
    while columns.len() < count
        invariant
            columns.len() <= count,
            texts(columns@) == column_names(columns@.len()),
        decreases count - columns.len(),
    {
        let ghost before = columns@;
        let mut column = "c".to_owned();
        append_number(&mut column, columns.len() as u64);
        columns.push(column);
        assert(texts(columns@) =~= texts(before).push(column@));
        assert(texts(columns@) =~= column_names(columns@.len()));
    }
    columns
}

/// Renders the columns of a row, under their own names.
pub fn render_row_columns(row: &str, count: usize) -> (columns: Vec<String>)
    ensures
        texts(columns@) == row_columns(row@, count as nat),
{
    let mut columns: Vec<String> = Vec::new();
    while columns.len() < count
        invariant
            columns.len() <= count,
            texts(columns@) == row_columns(row@, columns@.len()),
        decreases count - columns.len(),
    {
        let ghost before = columns@;
        let mut column = row.to_owned();
        column.append(".c");
        append_number(&mut column, columns.len() as u64);
        column.append(" AS c");
        append_number(&mut column, columns.len() as u64);
        columns.push(column);
        assert(texts(columns@) =~= texts(before).push(column@));
        assert(texts(columns@) =~= row_columns(row@, columns@.len()));
    }
    columns
}

/// Renders the statement that stages stale rows.
pub fn render_stale_rows(
    stage: &str,
    table: FunctionId,
    row: &str,
    union_find: FunctionId,
    stale: usize,
    bindings: &Vec<String>,
    seminaive: bool,
    watermark: u64,
) -> (sql: String)
    ensures
        sql@ == stale_rows_sql(
            stage@,
            table,
            row@,
            union_find,
            stale as nat,
            texts(bindings@),
            seminaive,
            watermark,
        ),
{
    let table_sql = sql_table(table);
    let union_find_sql = sql_table(union_find);
    let freshness = if seminaive {
        let mut text = "AND (".to_owned();
        text.append(row);
        text.append(".__generation >= CAST('");
        append_number(&mut text, watermark);
        text.append("' AS UBIGINT)\n                       OR uf_row.__generation >= CAST('");
        append_number(&mut text, watermark);
        text.append("' AS UBIGINT))");
        text
    } else {
        String::new()
    };
    let bindings_text = join_strings(bindings, ", ");
    let order = join_strings(&render_column_names(bindings.len()), ", ");
    let mut sql = "CREATE TEMP TABLE ".to_owned();
    sql.append(stage);
    sql.append(" AS\n             WITH bindings AS (\n                 SELECT DISTINCT ");
    sql.append(bindings_text.as_str());
    sql.append("\n                 FROM ");
    sql.append(table_sql.as_str());
    sql.append(" AS ");
    sql.append(row);
    sql.append("\n                 JOIN ");
    sql.append(union_find_sql.as_str());
    sql.append(" AS uf_row\n                   ON ");
    sql.append(row);
    sql.append(".c");
    append_number(&mut sql, stale as u64);
    sql.append(" IS NOT DISTINCT FROM uf_row.c0\n                 WHERE ");
    sql.append(row);
    sql.append(".c");
    append_number(&mut sql, stale as u64);
    sql.append(" IS DISTINCT FROM uf_row.c1\n                   ");
    sql.append(freshness.as_str());
    sql.append("\n             )\n             SELECT bindings.*,\n                    row_number() OVER (ORDER BY ");
    sql.append(order.as_str());
    sql.append(") AS __match_ordinal\n             FROM bindings");
    sql
}

} // verus!
