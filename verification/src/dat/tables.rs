//! Applying a whole table schema, column after column.
use vstd::prelude::*;
use crate::text::{decimal, push_decimal};
use crate::utf16::string_from_chars;
use super::columns::{
    column_is_readable, column_readable, column_result_view, parse_column, spec_parse_column, ColumnData,
    ColumnDataModel, ColumnError,
};
use super::schema::{ColumnSchema, DatTableSchema};
use super::table_view::DatFile;

verus! {

/// The name given to a column of the schema: its own, or `unknown_<k>` for the `k`th column
/// (from 0) without one.
pub open spec fn column_name(column: ColumnSchema, unknowns: nat) -> Seq<char> {
    match column.name {
        Some(n) => n@,
        None => "unknown_"@ + decimal(unknowns),
    }
}

/// The number of unnamed columns after `column`, `unknowns` being the number before it.
pub open spec fn unknowns_after(column: ColumnSchema, unknowns: nat) -> nat {
    if column.name is Some {
        unknowns
    } else {
        unknowns + 1
    }
}

/// The state after the first `k` columns of `cols`: the offset of the next column, the number of
/// unnamed columns met, and the columns that could be read, each with its own name; or the
/// failure that stopped reading.
pub open spec fn table_state(rows: Seq<Seq<u8>>, vd: Seq<u8>, cols: Seq<ColumnSchema>, k: nat) -> Result<
    (int, nat, Seq<(Seq<char>, ColumnDataModel)>),
    ColumnError,
>
    decreases k,
{
    if k == 0 {
        Ok((0, 0, Seq::empty()))
    } else {
        match table_state(rows, vd, cols, (k - 1) as nat) {
            Err(e) => Err(e),
            Ok((offset, unknowns, read)) => {
                let column = cols[k - 1];
                match spec_parse_column(rows, vd, column, offset) {
                    Err(e) => Err(e),
                    Ok((taken, values)) => Ok(
                        (
                            offset + taken,
                            unknowns_after(column, unknowns),
                            match values {
                                Ok(d) => read.push((column_name(column, unknowns), d)),
                                Err(_) => read,
                            },
                        ),
                    ),
                }
            },
        }
    }
}

/// Applying a schema to a table: the columns that could be read, in order, each with the name
/// given to its own schema column; a column that cannot be read is skipped, name and all.
pub open spec fn spec_parse_table(rows: Seq<Seq<u8>>, vd: Seq<u8>, cols: Seq<ColumnSchema>) -> Result<
    Seq<(Seq<char>, ColumnDataModel)>,
    ColumnError,
> {
    match table_state(rows, vd, cols, cols.len()) {
        Err(e) => Err(e),
        Ok((_, _, read)) => Ok(read),
    }
}

/// Whether every column that reading the table reaches has readable strings.
pub open spec fn table_readable(table: DatFile, cols: Seq<ColumnSchema>) -> bool {
    forall|k: nat|
        k < cols.len() ==> (#[trigger] table_state(
            table.spec_rows(),
            table.variable_data@,
            cols,
            k,
        ) matches Ok((offset, _, _)) ==> column_readable(table, cols[k as int], offset))
}

/// Whether the columns before the `k`th that reading the table reaches have readable strings.
pub open spec fn readable_before(table: DatFile, cols: Seq<ColumnSchema>, k: nat) -> bool {
    forall|j: nat|
        j < k ==> (#[trigger] table_state(
            table.spec_rows(),
            table.variable_data@,
            cols,
            j,
        ) matches Ok((offset, _, _)) ==> column_readable(table, cols[j as int], offset))
}

/// View of named columns.
pub open spec fn named_columns_view(v: Seq<(String, ColumnData)>) -> Seq<(Seq<char>, ColumnDataModel)> {
    v.map_values(|p: (String, ColumnData)| (p.0@, p.1.deep_view()))
}

/// A column reads at most 16 bytes of a row.
proof fn lemma_column_taken(rows: Seq<Seq<u8>>, vd: Seq<u8>, column: ColumnSchema, offset: int)
    ensures
        spec_parse_column(rows, vd, column, offset) matches Ok((taken, _)) ==> taken <= 16,
{
}

/// The name `unknown_<k>`.
fn unknown_name(k: usize) -> (s: String)
    ensures
        s@ == "unknown_"@ + decimal(k as nat),
{
    let mut chars: Vec<char> = Vec::new();
    chars.push('u');
    chars.push('n');
    chars.push('k');
    chars.push('n');
    chars.push('o');
    chars.push('w');
    chars.push('n');
    chars.push('_');
    proof {
        reveal_strlit("unknown_");
    }
    assert(chars@ =~= "unknown_"@);
    push_decimal(k as u64, &mut chars);
    string_from_chars(chars.as_slice())
}

/// Parses a table with the given schema where its string columns are readable (`None` where
/// reading them would decode invalid UTF-16): the columns that could be read, with their names.
pub fn parse_table_checked(table: &DatFile, schema: &DatTableSchema) -> (r: Option<
    Result<Vec<(String, ColumnData)>, ColumnError>,
>)
    requires
        table.wide_rows(),
        16 * schema.columns@.len() + 16 <= usize::MAX,
    ensures
        match r {
            None => !table_readable(*table, schema.columns@),
            Some(res) => table_readable(*table, schema.columns@) && match spec_parse_table(
                table.spec_rows(),
                table.variable_data@,
                schema.columns@,
            ) {
                Ok(v) => res matches Ok(w) && named_columns_view(w@) == v,
                Err(e) => res == Err::<Vec<(String, ColumnData)>, ColumnError>(e),
            },
        },
{
    let ghost rows = table.spec_rows();
    let ghost vd = table.variable_data@;
    let ghost cols = schema.columns@;
    let mut out: Vec<(String, ColumnData)> = Vec::new();
    let mut cur_offset: usize = 0;
    let mut num_unknowns: usize = 0;
    let mut k: usize = 0;
    assert(named_columns_view(out@) =~= Seq::<(Seq<char>, ColumnDataModel)>::empty());
    while k < schema.columns.len()
        invariant
            k <= cols.len(),
            cols == schema.columns@,
            rows == table.spec_rows(),
            vd == table.variable_data@,
            table.wide_rows(),
            16 * cols.len() + 16 <= usize::MAX,
            readable_before(*table, cols, k as nat),
            cur_offset <= 16 * k,
            num_unknowns <= k,
            table_state(rows, vd, cols, k as nat) matches Ok((offset, unknowns, read)) && offset
                == cur_offset && unknowns == num_unknowns && named_columns_view(out@) == read,
        decreases cols.len() - k,
    {
        let column = &schema.columns[k];
        let ghost before_state = table_state(rows, vd, cols, k as nat);
        if !column_is_readable(table, column, cur_offset) {
            assert(table_state(rows, vd, cols, k as nat) matches Ok((offset, _, _))
                && offset == cur_offset);
            return None;
        }
        let name = match &column.name {
            Some(n) => n.clone(),
            None => {
                let s = unknown_name(num_unknowns);
                num_unknowns = num_unknowns + 1;
                s
            },
        };
        assert(name@ == column_name(cols[k as int], before_state->Ok_0.1));
        proof {
            lemma_column_taken(rows, vd, cols[k as int], cur_offset as int);
        }
        let (taken, values) = match parse_column(table, column, cur_offset) {
            Ok(x) => x,
            Err(e) => {
                proof {
                    lemma_state_stuck(rows, vd, cols, (k + 1) as nat, cols.len());
                    assert forall|j: nat| j < cols.len() implies (#[trigger] table_state(
                        rows,
                        vd,
                        cols,
                        j,
                    ) matches Ok((offset, _, _)) ==> column_readable(
                        *table,
                        cols[j as int],
                        offset,
                    )) by {
                        if j > k {
                            lemma_state_stuck(rows, vd, cols, (k + 1) as nat, j);
                        }
                    }
                }
                return Some(Err(e));
            },
        };
        match values {
            Ok(d) => {
                let ghost before = out@;
                let ghost nv = name@;
                out.push((name, d));
                assert(named_columns_view(out@) =~= named_columns_view(before).push(
                    (nv, d.deep_view()),
                ));
            },
            Err(_) => {},
        }
        cur_offset = cur_offset + taken;
        k = k + 1;
        assert forall|j: nat| j < k implies (#[trigger] table_state(rows, vd, cols, j) matches Ok((
            offset,
            _,
            _,
        )) ==> column_readable(*table, cols[j as int], offset)) by {}
    }
    Some(Ok(out))
}

/// Parse a table with the given schema: the columns that could be read, with their names.
pub fn parse_table(table: &DatFile, schema: &DatTableSchema) -> (r: Result<
    Vec<(String, ColumnData)>,
    ColumnError,
>)
    requires
        table.wide_rows(),
        16 * schema.columns@.len() + 16 <= usize::MAX,
        table_readable(*table, schema.columns@),
    ensures
        match spec_parse_table(table.spec_rows(), table.variable_data@, schema.columns@) {
            Ok(v) => r matches Ok(w) && named_columns_view(w@) == v,
            Err(e) => r == Err::<Vec<(String, ColumnData)>, ColumnError>(e),
        },
{
    match parse_table_checked(table, schema) {
        Some(res) => res,
        None => Ok(Vec::new()),
    }
}

/// Once reading stops with an error, it stays stopped.
proof fn lemma_state_stuck(rows: Seq<Seq<u8>>, vd: Seq<u8>, cols: Seq<ColumnSchema>, i: nat, j: nat)
    requires
        i <= j,
        table_state(rows, vd, cols, i) is Err,
    ensures
        table_state(rows, vd, cols, j) == table_state(rows, vd, cols, i),
    decreases j - i,
{
    if i < j {
        lemma_state_stuck(rows, vd, cols, i, (j - 1) as nat);
    }
}

} // verus!
