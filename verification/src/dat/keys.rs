//! Resolving the keys of tables, depth first: before a table's rows can be read with their
//! references resolved, the tables its key columns refer to must have their keys resolved. Each
//! step decides, from a table's columns and the tables already resolved, whether to defer the
//! table behind the ones it waits for or to load it; the caller loads the file and parses its
//! rows, and [`table_keys`] takes each row's key from them. [`next_unresolved`] takes the next
//! table to decide on off the stack of tables still to resolve.
use vstd::prelude::*;
use crate::text::{chars_of, str_eq};
use crate::utf16::string_from_chars;
use super::lookup::{lowercase, to_lowercase};
use super::refs::{clone_json, json_view, Json, JsonModel};

verus! {

/// What the schema says of one column, for key resolution: the name the column is given, the
/// table it refers to if any, and whether it is part of the table's primary key.
pub struct KeyColumn {
    pub name: String,
    pub references: Option<String>,
    pub primary_key: bool,
}

/// Model of a [`KeyColumn`].
pub struct KeyColumnModel {
    pub name: Seq<char>,
    pub references: Option<Seq<char>>,
    pub primary_key: bool,
}

/// The models of some columns.
pub open spec fn key_columns_view(cols: Seq<KeyColumn>) -> Seq<KeyColumnModel> {
    cols.map_values(
        |c: KeyColumn|
            KeyColumnModel {
                name: c.name@,
                references: match c.references {
                    Some(r) => Some(r@),
                    None => None,
                },
                primary_key: c.primary_key,
            },
    )
}

/// The names of the primary key columns, in order.
pub open spec fn primary_names(cols: Seq<KeyColumnModel>) -> Seq<Seq<char>>
    decreases cols.len(),
{
    if cols.len() == 0 {
        Seq::empty()
    } else {
        let rest = primary_names(cols.drop_last());
        if cols.last().primary_key {
            rest.push(cols.last().name)
        } else {
            rest
        }
    }
}

/// The columns that make a row's key: the primary key columns, or the first column where the
/// table has no primary key.
pub open spec fn key_names(cols: Seq<KeyColumnModel>) -> Seq<Seq<char>> {
    if primary_names(cols).len() == 0 && cols.len() > 0 {
        seq![cols[0].name]
    } else {
        primary_names(cols)
    }
}

/// The lower-case names of the tables that key columns refer to and whose keys are not resolved
/// yet, in column order.
pub open spec fn unresolved_refs(
    cols: Seq<KeyColumnModel>,
    keys: Seq<Seq<char>>,
    resolved: Seq<Seq<char>>,
) -> Seq<Seq<char>>
    decreases cols.len(),
{
    if cols.len() == 0 {
        Seq::empty()
    } else {
        let rest = unresolved_refs(cols.drop_last(), keys, resolved);
        let c = cols.last();
        match c.references {
            Some(t) => if keys.contains(c.name) && !resolved.contains(lowercase(t)) {
                rest.push(lowercase(t))
            } else {
                rest
            },
            None => rest,
        }
    }
}

/// The path of a table's file in a major version of the game.
pub open spec fn table_file(major: u32, table: Seq<char>) -> Seq<char> {
    if major == 1 {
        "data/"@ + table + ".datc64"@
    } else {
        "data/balance/"@ + table + ".datc64"@
    }
}

/// What to do with a table whose keys are wanted.
pub enum KeyStep {
    /// Resolve these tables first: the table itself, then the tables it waits for, to be pushed
    /// in this order on the stack of tables to resolve
    Defer(Vec<String>),
    /// Load this file, and take each row's key from these columns
    Load { file: String, key_columns: Vec<String> },
}

/// Model of a [`KeyStep`].
pub enum KeyStepModel {
    Defer(Seq<Seq<char>>),
    Load { file: Seq<char>, key_columns: Seq<Seq<char>> },
}

impl View for KeyStep {
    type V = KeyStepModel;

    open spec fn view(&self) -> KeyStepModel {
        match self {
            KeyStep::Defer(v) => KeyStepModel::Defer(v@.map_values(|s: String| s@)),
            KeyStep::Load { file, key_columns } => KeyStepModel::Load {
                file: file@,
                key_columns: key_columns@.map_values(|s: String| s@),
            },
        }
    }
}

/// The step for `table`: defer it where a key column refers to a table not resolved yet, else
/// load its file.
pub open spec fn spec_key_step(
    cols: Seq<KeyColumnModel>,
    resolved: Seq<Seq<char>>,
    major: u32,
    table: Seq<char>,
) -> KeyStepModel {
    let keys = key_names(cols);
    let refs = unresolved_refs(cols, keys, resolved);
    if refs.len() > 0 {
        KeyStepModel::Defer(seq![table] + refs)
    } else {
        KeyStepModel::Load { file: table_file(major, table), key_columns: keys }
    }
}

/// Whether some string of `v` is `s`.
fn contains_str(v: &Vec<String>, s: &str) -> (r: bool)
    ensures
        r == v@.map_values(|x: String| x@).contains(s@),
{
    let ghost vv = v@.map_values(|x: String| x@);
    let mut i: usize = 0;
    while i < v.len()
        invariant
            i <= v@.len(),
            vv == v@.map_values(|x: String| x@),
            forall|j: int| 0 <= j < i ==> vv[j] != s@,
        decreases v@.len() - i,
    {
        if str_eq(v[i].as_str(), s) {
            assert(vv[i as int] == s@);
            return true;
        }
        i = i + 1;
    }
    false
}

/// `a`, `b` and `c` joined.
fn join3(a: &str, b: &str, c: &str) -> (r: String)
    ensures
        r@ == a@ + b@ + c@,
{
    let mut chars = chars_of(a);
    let mut mid = chars_of(b);
    chars.append(&mut mid);
    let mut tail = chars_of(c);
    chars.append(&mut tail);
    string_from_chars(chars.as_slice())
}

/// Decides what to do with `table`: defer it behind the tables its key columns refer to that are
/// not in `resolved`, or load its file (`major` being 1 or 2 where it comes to that).
pub fn key_step(columns: &Vec<KeyColumn>, resolved: &Vec<String>, major: u32, table: &str) -> (r: KeyStep)
    requires
        unresolved_refs(
            key_columns_view(columns@),
            key_names(key_columns_view(columns@)),
            resolved@.map_values(|s: String| s@),
        ).len() > 0 || major == 1 || major == 2,
    ensures
        r@ == spec_key_step(
            key_columns_view(columns@),
            resolved@.map_values(|s: String| s@),
            major,
            table@,
        ),
{
    let ghost cv = key_columns_view(columns@);
    let ghost rv = resolved@.map_values(|s: String| s@);
    let mut keys: Vec<String> = Vec::new();
    let mut i: usize = 0;
    while i < columns.len()
        invariant
            i <= columns@.len(),
            cv == key_columns_view(columns@),
            keys@.map_values(|s: String| s@) == primary_names(cv.take(i as int)),
        decreases columns@.len() - i,
    {
        assert(cv.take(i + 1).drop_last() =~= cv.take(i as int));
        let ghost before = keys@.map_values(|s: String| s@);
        if columns[i].primary_key {
            keys.push(columns[i].name.clone());
            assert(keys@.map_values(|s: String| s@) =~= before.push(cv[i as int].name));
        }
        i = i + 1;
    }
    assert(cv.take(cv.len() as int) =~= cv);
    if keys.len() == 0 && columns.len() > 0 {
        keys.push(columns[0].name.clone());
        assert(keys@.map_values(|s: String| s@) =~= seq![cv[0].name]);
    }
    let ghost kv = keys@.map_values(|s: String| s@);
    assert(kv == key_names(cv));
    let mut refs: Vec<String> = Vec::new();
    let mut k: usize = 0;
    while k < columns.len()
        invariant
            k <= columns@.len(),
            cv == key_columns_view(columns@),
            rv == resolved@.map_values(|s: String| s@),
            kv == keys@.map_values(|s: String| s@),
            refs@.map_values(|s: String| s@) == unresolved_refs(cv.take(k as int), kv, rv),
        decreases columns@.len() - k,
    {
        assert(cv.take(k + 1).drop_last() =~= cv.take(k as int));
        let ghost before = refs@.map_values(|s: String| s@);
        match &columns[k].references {
            Some(t) => {
                if contains_str(&keys, columns[k].name.as_str()) {
                    let lower = to_lowercase(t.as_str());
                    if !contains_str(resolved, lower.as_str()) {
                        let ghost lv = lower@;
                        refs.push(lower);
                        assert(refs@.map_values(|s: String| s@) =~= before.push(lv));
                    }
                }
            },
            None => {},
        }
        k = k + 1;
    }
    assert(cv.take(cv.len() as int) =~= cv);
    if refs.len() > 0 {
        let mut out: Vec<String> = Vec::new();
        out.push(table.to_owned());
        let ghost rfv = refs@.map_values(|s: String| s@);
        let mut j: usize = 0;
        while j < refs.len()
            invariant
                j <= refs@.len(),
                rfv == refs@.map_values(|s: String| s@),
                out@.map_values(|s: String| s@) == seq![table@] + rfv.take(j as int),
            decreases refs@.len() - j,
        {
            let ghost before = out@.map_values(|s: String| s@);
            let item = refs[j].clone();
            assert(item@ == rfv[j as int]);
            out.push(item);
            assert(out@.map_values(|s: String| s@) =~= before.push(rfv[j as int]));
            assert(seq![table@] + rfv.take(j + 1) =~= (seq![table@] + rfv.take(j as int)).push(
                rfv[j as int],
            ));
            j = j + 1;
        }
        assert(rfv.take(rfv.len() as int) =~= rfv);
        KeyStep::Defer(out)
    } else {
        let file = if major == 1 {
            join3("data/", table, ".datc64")
        } else {
            join3("data/balance/", table, ".datc64")
        };
        KeyStep::Load { file, key_columns: keys }
    }
}

/// Where no key column refers to a table that is not resolved, every table that a key column
/// refers to is resolved.
proof fn lemma_no_unresolved(cols: Seq<KeyColumnModel>, keys: Seq<Seq<char>>, resolved: Seq<Seq<char>>)
    requires
        unresolved_refs(cols, keys, resolved).len() == 0,
    ensures
        forall|i: int|
            0 <= i < cols.len() && keys.contains(#[trigger] cols[i].name) && cols[i].references is Some
                ==> resolved.contains(lowercase(cols[i].references->0)),
    decreases cols.len(),
{
    if cols.len() > 0 {
        let rest = cols.drop_last();
        lemma_no_unresolved(rest, keys, resolved);
        assert forall|i: int|
            0 <= i < cols.len() && keys.contains(#[trigger] cols[i].name) && cols[i].references is Some
            implies resolved.contains(lowercase(cols[i].references->0)) by {
            if i < cols.len() - 1 {
                assert(rest[i] == cols[i]);
            }
        }
    }
}

/// A table is loaded only once every table that one of its key columns refers to has its keys
/// resolved (under its lower-case name).
pub proof fn lemma_load_after_references(
    cols: Seq<KeyColumnModel>,
    resolved: Seq<Seq<char>>,
    major: u32,
    table: Seq<char>,
)
    requires
        spec_key_step(cols, resolved, major, table) is Load,
    ensures
        forall|i: int|
            0 <= i < cols.len() && key_names(cols).contains(#[trigger] cols[i].name)
                && cols[i].references is Some ==> resolved.contains(lowercase(cols[i].references->0)),
{
    lemma_no_unresolved(cols, key_names(cols), resolved);
}

/// Takes tables off the top of the stack of tables to resolve until one whose keys are not
/// resolved yet comes off, and gives it; `None` once the stack is empty. The stack left is the
/// bottom of the one given, and every table taken off before the one given is resolved.
pub fn next_unresolved(stack: &mut Vec<String>, resolved: &Vec<String>) -> (r: Option<String>)
    ensures
        final(stack)@.len() <= old(stack)@.len(),
        final(stack)@ == old(stack)@.take(final(stack)@.len() as int),
        match r {
            Some(t) => {
                &&& final(stack)@.len() < old(stack)@.len()
                &&& t@ == old(stack)@[final(stack)@.len() as int]@
                &&& !resolved@.map_values(|s: String| s@).contains(t@)
                &&& forall|i: int|
                    final(stack)@.len() < i < old(stack)@.len() ==> resolved@.map_values(
                        |s: String| s@,
                    ).contains(#[trigger] old(stack)@[i]@)
            },
            None => {
                &&& final(stack)@.len() == 0
                &&& forall|i: int|
                    0 <= i < old(stack)@.len() ==> resolved@.map_values(|s: String| s@).contains(
                        #[trigger] old(stack)@[i]@,
                    )
            },
        },
{
    let ghost orig = stack@;
    let ghost rv = resolved@.map_values(|s: String| s@);
    assert(orig.take(orig.len() as int) =~= orig);
    loop
        invariant
            stack@.len() <= orig.len(),
            stack@ == orig.take(stack@.len() as int),
            rv == resolved@.map_values(|s: String| s@),
            orig == old(stack)@,
            forall|i: int| stack@.len() <= i < orig.len() ==> rv.contains(#[trigger] orig[i]@),
        decreases stack@.len(),
    {
        let ghost n = stack@.len();
        match stack.pop() {
            None => {
                return None;
            },
            Some(t) => {
                assert(orig.take(n as int).drop_last() =~= orig.take(n - 1));
                assert(t == orig[n - 1]);
                if !contains_str(resolved, t.as_str()) {
                    return Some(t);
                }
            },
        }
    }
}

/// The value of field `name` of a JSON object, null where there is no such field or the value is
/// no object.
pub open spec fn field_of(row: JsonModel, name: Seq<char>) -> JsonModel {
    match row {
        JsonModel::Object(fields) => first_field(fields, name),
        _ => JsonModel::Null,
    }
}

/// The value of the first field named `name`, null where there is none.
pub open spec fn first_field(fields: Seq<(Seq<char>, JsonModel)>, name: Seq<char>) -> JsonModel
    decreases fields.len(),
{
    if fields.len() == 0 {
        JsonModel::Null
    } else if fields[0].0 == name {
        fields[0].1
    } else {
        first_field(fields.drop_first(), name)
    }
}

/// A row's key: the value of its one key column, or the list of the values of its key columns.
pub open spec fn row_key(row: JsonModel, key_columns: Seq<Seq<char>>) -> JsonModel {
    if key_columns.len() == 1 {
        field_of(row, key_columns[0])
    } else {
        JsonModel::Array(Seq::new(key_columns.len(), |k: int| field_of(row, key_columns[k])))
    }
}

/// The value of field `name` of a parsed row.
fn field_json(row: &Json, name: &str) -> (r: Json)
    ensures
        json_view(r) == field_of(json_view(*row), name@),
{
    match row {
        Json::Object(fields) => {
            let ghost fv = json_view(*row)->Object_0;
            assert(fv.skip(0) =~= fv);
            let mut i: usize = 0;
            while i < fields.len()
                invariant
                    *row == Json::Object(*fields),
                    fv == json_view(*row)->Object_0,
                    fv.len() == fields@.len(),
                    forall|k: int|
                        0 <= k < fields@.len() ==> #[trigger] fv[k] == (fields@[k].0@, json_view(
                            fields@[k].1,
                        )),
                    i <= fields@.len(),
                    first_field(fv, name@) == first_field(fv.skip(i as int), name@),
                decreases fields@.len() - i,
            {
                assert(fv.skip(i as int)[0] == fv[i as int]);
                assert(fv.skip(i as int).drop_first() =~= fv.skip(i + 1));
                if str_eq(fields[i].0.as_str(), name) {
                    return clone_json(&fields[i].1);
                }
                i = i + 1;
            }
            Json::Null
        },
        _ => Json::Null,
    }
}

/// The key of each parsed row, from the key columns that [`key_step`] gave.
pub fn table_keys(rows: &Vec<Json>, key_columns: &Vec<String>) -> (r: Vec<Json>)
    requires
        key_columns@.len() > 0,
    ensures
        r@.len() == rows@.len(),
        forall|i: int|
            0 <= i < rows@.len() ==> json_view(#[trigger] r@[i]) == row_key(
                json_view(rows@[i]),
                key_columns@.map_values(|s: String| s@),
            ),
{
    let ghost kv = key_columns@.map_values(|s: String| s@);
    let mut out: Vec<Json> = Vec::new();
    let mut i: usize = 0;
    while i < rows.len()
        invariant
            i <= rows@.len(),
            key_columns@.len() > 0,
            kv == key_columns@.map_values(|s: String| s@),
            out@.len() == i,
            forall|j: int|
                0 <= j < i ==> json_view(#[trigger] out@[j]) == row_key(json_view(rows@[j]), kv),
        decreases rows@.len() - i,
    {
        let row = &rows[i];
        let key = if key_columns.len() == 1 {
            field_json(row, key_columns[0].as_str())
        } else {
            let mut parts: Vec<Json> = Vec::new();
            let mut k: usize = 0;
            while k < key_columns.len()
                invariant
                    k <= key_columns@.len(),
                    kv == key_columns@.map_values(|s: String| s@),
                    parts@.len() == k,
                    forall|m: int|
                        0 <= m < k ==> json_view(#[trigger] parts@[m]) == field_of(
                            json_view(*row),
                            kv[m],
                        ),
                decreases key_columns@.len() - k,
            {
                parts.push(field_json(row, key_columns[k].as_str()));
                k = k + 1;
            }
            let ghost pv = Seq::new(parts@.len(), |m: int| field_of(json_view(*row), kv[m]));
            let arr = Json::Array(parts);
            proof {
                assert(json_view(arr)->Array_0 =~= pv);
                assert(row_key(json_view(*row), kv)->Array_0 =~= pv);
            }
            arr
        };
        out.push(key);
        i = i + 1;
    }
    out
}

} // verus!
