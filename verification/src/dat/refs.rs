//! Reading reference columns (foreign rows, rows of the same table, enum rows, and arrays and
//! intervals of them) into JSON values, resolving each row index to the key of the row it names
//! where that key is known.
//!
//! The shapes it gives:
//! - `null` for a null scalar index, or for an array whose pointer is outside the variable section;
//! - `[]` for an empty array;
//! - for a scalar, `{"TableName": t, "Id": key}` where its row has a known key, else
//!   `{"TableName": t, "RowIndex": n}` (`t` is null where the column names no table);
//! - for an array or interval whose column names a table, `{"TableName": t, "Ids": [..]}`, each
//!   item the row's key, `{"rowIndex": n}` where no key is known, or null for a null index;
//! - for an array or interval whose column names no table, `{"TableName": null,
//!   "RowIndices": [..]}`.
//!
//! [`create_parser`] reads a whole row into a JSON object, one field per column.
use vstd::prelude::*;
use crate::text::str_eq;
use super::columns::{
    all_fe, parse_foreignrow, parse_u32, parse_u64, spec_foreignrow, spec_u32, spec_u64,
};
use super::lookup::{lowercase, to_lowercase};
use super::parser::{
    fits, plain_column, sp_plain_column, ByteStep, JsonItem, JsonItemModel, PlainModel, PlainValue,
};
use super::schema::ColumnSchema;

verus! {

/// A JSON value. Numbers are kept as signed or unsigned integers, or as the bits of a 32-bit
/// float.
#[derive(Debug, PartialEq)]
pub enum Json {
    Null,
    Bool(bool),
    Int(i64),
    UInt(u64),
    F32Bits(u32),
    Text(String),
    Array(Vec<Json>),
    Object(Vec<(String, Json)>),
}

/// Model of a [`Json`] value.
pub enum JsonModel {
    Null,
    Bool(bool),
    Number(int),
    F32Bits(u32),
    Text(Seq<char>),
    Array(Seq<JsonModel>),
    Object(Seq<(Seq<char>, JsonModel)>),
}

/// The model of a JSON value.
pub open spec fn json_view(j: Json) -> JsonModel
    decreases j,
{
    match j {
        Json::Null => JsonModel::Null,
        Json::Bool(b) => JsonModel::Bool(b),
        Json::Int(i) => JsonModel::Number(i as int),
        Json::UInt(u) => JsonModel::Number(u as int),
        Json::F32Bits(f) => JsonModel::F32Bits(f),
        Json::Text(s) => JsonModel::Text(s@),
        Json::Array(v) => JsonModel::Array(
            Seq::new(
                v@.len(),
                |i: int|
                    if 0 <= i < v@.len() {
                        json_view(v@[i])
                    } else {
                        JsonModel::Null
                    },
            ),
        ),
        Json::Object(v) => JsonModel::Object(
            Seq::new(
                v@.len(),
                |i: int|
                    if 0 <= i < v@.len() {
                        (v@[i].0@, json_view(v@[i].1))
                    } else {
                        (Seq::empty(), JsonModel::Null)
                    },
            ),
        ),
    }
}

/// A copy of a JSON value.
pub fn clone_json(j: &Json) -> (r: Json)
    ensures
        json_view(r) == json_view(*j),
    decreases j,
{
    match j {
        Json::Null => Json::Null,
        Json::Bool(b) => Json::Bool(*b),
        Json::Int(i) => Json::Int(*i),
        Json::UInt(u) => Json::UInt(*u),
        Json::F32Bits(f) => Json::F32Bits(*f),
        Json::Text(s) => Json::Text(s.clone()),
        Json::Array(v) => {
            assert(*j == Json::Array(*v));
            let mut out: Vec<Json> = Vec::new();
            let mut i: usize = 0;
            while i < v.len()
                invariant
                    *j == Json::Array(*v),
                    i <= v@.len(),
                    out@.len() == i,
                    forall|k: int| 0 <= k < i ==> json_view(#[trigger] out@[k]) == json_view(v@[k]),
                decreases v@.len() - i,
            {
                proof {
                    assert(decreases_to!(*j => j->Array_0));
                    assert(decreases_to!(*v => v@));
                    assert(decreases_to!(v@ => v@[i as int]));
                }
                out.push(clone_json(&v[i]));
                i = i + 1;
            }
            let r = Json::Array(out);
            proof {
                let a = Seq::new(
                    out@.len(),
                    |k: int|
                        if 0 <= k < out@.len() {
                            json_view(out@[k])
                        } else {
                            JsonModel::Null
                        },
                );
                let b = Seq::new(
                    v@.len(),
                    |k: int|
                        if 0 <= k < v@.len() {
                            json_view(v@[k])
                        } else {
                            JsonModel::Null
                        },
                );
                assert(a =~= b);
                assert(json_view(r)->Array_0 =~= a);
                assert(json_view(*j)->Array_0 =~= b);
            }
            r
        },
        Json::Object(v) => {
            assert(*j == Json::Object(*v));
            let mut out: Vec<(String, Json)> = Vec::new();
            let mut i: usize = 0;
            while i < v.len()
                invariant
                    *j == Json::Object(*v),
                    i <= v@.len(),
                    out@.len() == i,
                    forall|k: int|
                        0 <= k < i ==> (#[trigger] out@[k]).0@ == v@[k].0@ && json_view(out@[k].1)
                            == json_view(v@[k].1),
                decreases v@.len() - i,
            {
                let name = v[i].0.clone();
                proof {
                    assert(decreases_to!(*j => j->Object_0));
                    assert(decreases_to!(*v => v@));
                    assert(decreases_to!(v@ => v@[i as int]));
                    assert(decreases_to!(v@[i as int] => v@[i as int].1));
                }
                let value = clone_json(&v[i].1);
                out.push((name, value));
                i = i + 1;
            }
            let r = Json::Object(out);
            proof {
                let a = Seq::new(
                    out@.len(),
                    |k: int|
                        if 0 <= k < out@.len() {
                            (out@[k].0@, json_view(out@[k].1))
                        } else {
                            (Seq::empty(), JsonModel::Null)
                        },
                );
                let b = Seq::new(
                    v@.len(),
                    |k: int|
                        if 0 <= k < v@.len() {
                            (v@[k].0@, json_view(v@[k].1))
                        } else {
                            (Seq::empty(), JsonModel::Null)
                        },
                );
                assert(a =~= b);
                assert(json_view(r)->Object_0 =~= a);
                assert(json_view(*j)->Object_0 =~= b);
            }
            r
        },
    }
}

/// The kinds of index a reference column holds, by the schema's type name.
#[derive(Clone, Copy, PartialEq, Eq, Structural)]
pub enum RefKind {
    /// A 16-byte index into another table; all bytes 0xfe is null
    Foreign,
    /// An 8-byte index into the same table; all bytes 0xfe is null
    Row,
    /// A 4-byte index into an enumeration, never null
    Enum,
    /// Not a reference type
    Other,
}

/// The kind of index that a type name names.
pub open spec fn ref_kind(ty: Seq<char>) -> RefKind {
    if ty == "foreignrow"@ {
        RefKind::Foreign
    } else if ty == "row"@ {
        RefKind::Row
    } else if ty == "enumrow"@ {
        RefKind::Enum
    } else {
        RefKind::Other
    }
}

/// Whether all the bytes are 0xfe.
pub open spec fn all_fe_seq(b: Seq<u8>) -> bool {
    b == Seq::new(b.len(), |_i: int| 0xfeu8)
}

/// A row index of the given kind at `p`: the row, or `None` for a null index. A 16-byte index
/// is cut to its low 64 bits.
pub open spec fn sp_ref_index(kind: RefKind, b: Seq<u8>, p: int) -> ByteStep<Option<u64>> {
    match kind {
        RefKind::Foreign => if fits(b, p, 16) {
            let x = b.subrange(p, p + 16);
            if all_fe_seq(x) {
                ByteStep::Done(None, p + 16)
            } else {
                ByteStep::Done(Some(spec_foreignrow(x)), p + 16)
            }
        } else {
            ByteStep::Fail
        },
        RefKind::Row => if fits(b, p, 8) {
            let x = b.subrange(p, p + 8);
            if all_fe_seq(x) {
                ByteStep::Done(None, p + 8)
            } else {
                ByteStep::Done(Some(spec_u64(x)), p + 8)
            }
        } else {
            ByteStep::Fail
        },
        RefKind::Enum => if fits(b, p, 4) {
            ByteStep::Done(Some(spec_u32(b.subrange(p, p + 4)) as u64), p + 4)
        } else {
            ByteStep::Fail
        },
        RefKind::Other => ByteStep::Fail,
    }
}

/// The keys known for each table, by lower-case table name: per table, the key of each of its
/// rows, null for a row without one.
pub open spec fn keys_view(resolved: Seq<(String, Vec<Json>)>) -> Seq<(Seq<char>, Seq<JsonModel>)> {
    resolved.map_values(|e: (String, Vec<Json>)| (e.0@, e.1@.map_values(|j: Json| json_view(j))))
}

/// The keys of the first table named `name`.
pub open spec fn keys_of(keys: Seq<(Seq<char>, Seq<JsonModel>)>, name: Seq<char>) -> Option<Seq<JsonModel>>
    decreases keys.len(),
{
    if keys.len() == 0 {
        None
    } else if keys[0].0 == name {
        Some(keys[0].1)
    } else {
        keys_of(keys.drop_first(), name)
    }
}

/// The table name as JSON: its text, or null where the column names no table.
pub open spec fn table_json(table: Option<Seq<char>>) -> JsonModel {
    match table {
        Some(t) => JsonModel::Text(t),
        None => JsonModel::Null,
    }
}

/// The model of a borrowed table name.
pub open spec fn table_view(table: Option<&String>) -> Option<Seq<char>> {
    match table {
        Some(t) => Some(t@),
        None => None,
    }
}

/// The table a column refers to, if it names one.
pub open spec fn ref_table(column: ColumnSchema) -> Option<Seq<char>> {
    match column.references {
        Some(r) => Some(r.table@),
        None => None,
    }
}

/// The key of row `row` of the named table, where that table's keys are known (under its
/// lower-case name) and the row is one of them with a key that is not null.
pub open spec fn known_key(
    table: Option<Seq<char>>,
    keys: Seq<(Seq<char>, Seq<JsonModel>)>,
    row: u64,
) -> Option<JsonModel> {
    match table {
        Some(t) => match keys_of(keys, lowercase(t)) {
            Some(ks) => if row < ks.len() && !(ks[row as int] is Null) {
                Some(ks[row as int])
            } else {
                None
            },
            None => None,
        },
        None => None,
    }
}

/// A scalar reference: null for a null index; else the table name (null where the column names
/// none) beside the row's key under `"Id"`, or beside the row index under `"RowIndex"` where no
/// key is known.
pub open spec fn scalar_ref(
    table: Option<Seq<char>>,
    keys: Seq<(Seq<char>, Seq<JsonModel>)>,
    index: Option<u64>,
) -> JsonModel {
    match index {
        None => JsonModel::Null,
        Some(row) => match known_key(table, keys, row) {
            Some(k) => JsonModel::Object(seq![("TableName"@, table_json(table)), ("Id"@, k)]),
            None => JsonModel::Object(
                seq![("TableName"@, table_json(table)), ("RowIndex"@, JsonModel::Number(row as int))],
            ),
        },
    }
}

/// One item of an array or interval of references. Where the column names a table: null for a
/// null index, the row's key where it is known, else `{"rowIndex": row}`. Where it names none:
/// the row index itself, or null.
pub open spec fn ref_item(
    table: Option<Seq<char>>,
    keys: Seq<(Seq<char>, Seq<JsonModel>)>,
    index: Option<u64>,
) -> JsonModel {
    match index {
        None => JsonModel::Null,
        Some(row) => match table {
            Some(_) => match known_key(table, keys, row) {
                Some(k) => k,
                None => JsonModel::Object(seq![("rowIndex"@, JsonModel::Number(row as int))]),
            },
            None => JsonModel::Number(row as int),
        },
    }
}

/// An array or interval of references: `[]` when it has none; else, where the column names a
/// table, its name beside the items under `"Ids"`, and where it names none, a null table name
/// beside the row indices under `"RowIndices"`.
pub open spec fn many_refs(
    table: Option<Seq<char>>,
    keys: Seq<(Seq<char>, Seq<JsonModel>)>,
    indices: Seq<Option<u64>>,
) -> JsonModel {
    if indices.len() == 0 {
        JsonModel::Array(Seq::empty())
    } else {
        let items = JsonModel::Array(indices.map_values(|i: Option<u64>| ref_item(table, keys, i)));
        match table {
            Some(t) => JsonModel::Object(seq![("TableName"@, JsonModel::Text(t)), ("Ids"@, items)]),
            None => JsonModel::Object(seq![("TableName"@, JsonModel::Null), ("RowIndices"@, items)]),
        }
    }
}

/// `n` row indices one after the other from `p`.
pub open spec fn sp_ref_indices(kind: RefKind, b: Seq<u8>, p: int, n: nat) -> ByteStep<Seq<Option<u64>>>
    decreases n,
{
    if n == 0 {
        ByteStep::Done(Seq::empty(), p)
    } else {
        match sp_ref_index(kind, b, p) {
            ByteStep::Done(v, q) => match sp_ref_indices(kind, b, q, (n - 1) as nat) {
                ByteStep::Done(rest, end) => ByteStep::Done(seq![v] + rest, end),
                ByteStep::Fail => ByteStep::Fail,
                ByteStep::Abort => ByteStep::Abort,
            },
            ByteStep::Fail => ByteStep::Fail,
            ByteStep::Abort => ByteStep::Abort,
        }
    }
}

/// `prefix` put before what a run of row indices gives.
pub open spec fn indices_after(
    prefix: Seq<Option<u64>>,
    step: ByteStep<Seq<Option<u64>>>,
) -> ByteStep<Seq<Option<u64>>> {
    match step {
        ByteStep::Done(rest, end) => ByteStep::Done(prefix + rest, end),
        ByteStep::Fail => ByteStep::Fail,
        ByteStep::Abort => ByteStep::Abort,
    }
}

/// A reference column's cell at `p` of a row `b`. An array cell holds an 8-byte length and an
/// 8-byte pointer into the variable section (counted from 8), and a pointer outside the section
/// gives null; an interval holds two references; any other cell one.
pub open spec fn sp_ref_column(
    column: ColumnSchema,
    vs: Seq<u8>,
    keys: Seq<(Seq<char>, Seq<JsonModel>)>,
    b: Seq<u8>,
    p: int,
) -> ByteStep<JsonModel> {
    let kind = ref_kind(column.column_type@);
    let table = ref_table(column);
    if column.array {
        if fits(b, p, 16) {
            let length = spec_u64(b.subrange(p, p + 8));
            let pointer = spec_u64(b.subrange(p + 8, p + 16));
            if 8 <= pointer < vs.len() + 8 {
                match sp_ref_indices(kind, vs.skip(pointer - 8), 0, length as nat) {
                    ByteStep::Done(indices, _) => ByteStep::Done(many_refs(table, keys, indices), p + 16),
                    ByteStep::Fail => ByteStep::Fail,
                    ByteStep::Abort => ByteStep::Abort,
                }
            } else {
                ByteStep::Done(JsonModel::Null, p + 16)
            }
        } else {
            ByteStep::Fail
        }
    } else if column.interval {
        match sp_ref_indices(kind, b, p, 2) {
            ByteStep::Done(indices, q) => ByteStep::Done(many_refs(table, keys, indices), q),
            ByteStep::Fail => ByteStep::Fail,
            ByteStep::Abort => ByteStep::Abort,
        }
    } else {
        match sp_ref_index(kind, b, p) {
            ByteStep::Done(index, q) => ByteStep::Done(scalar_ref(table, keys, index), q),
            ByteStep::Fail => ByteStep::Fail,
            ByteStep::Abort => ByteStep::Abort,
        }
    }
}

/// The kind of index that a column's type name names.
fn ref_kind_of(ty: &str) -> (r: RefKind)
    ensures
        r == ref_kind(ty@),
{
    if str_eq(ty, "foreignrow") {
        RefKind::Foreign
    } else if str_eq(ty, "row") {
        RefKind::Row
    } else if str_eq(ty, "enumrow") {
        RefKind::Enum
    } else {
        RefKind::Other
    }
}

/// Reads a row index at `pos`.
fn ref_index(kind: RefKind, input: &[u8], pos: usize) -> (r: Option<(Option<u64>, usize)>)
    requires
        pos <= input@.len(),
    ensures
        match sp_ref_index(kind, input@, pos as int) {
            ByteStep::Done(v, q) => r matches Some((v2, q2)) && v2 == v && q2 == q && pos <= q
                <= input@.len(),
            _ => r is None,
        },
{
    let left = input.len() - pos;
    match kind {
        RefKind::Foreign => if left >= 16 {
            let x = &input[pos..pos + 16];
            if all_fe(x) {
                Some((None, pos + 16))
            } else {
                Some((Some(parse_foreignrow(x)), pos + 16))
            }
        } else {
            None
        },
        RefKind::Row => if left >= 8 {
            let x = &input[pos..pos + 8];
            if all_fe(x) {
                Some((None, pos + 8))
            } else {
                Some((Some(parse_u64(x)), pos + 8))
            }
        } else {
            None
        },
        RefKind::Enum => if left >= 4 {
            let x = &input[pos..pos + 4];
            Some((Some(parse_u32(x) as u64), pos + 4))
        } else {
            None
        },
        RefKind::Other => None,
    }
}

/// The keys of the first table in `resolved` named `name`.
fn find_keys<'a>(resolved: &'a Vec<(String, Vec<Json>)>, name: &str) -> (r: Option<&'a Vec<Json>>)
    ensures
        match keys_of(keys_view(resolved@), name@) {
            Some(ks) => r matches Some(v) && v@.map_values(|j: Json| json_view(j)) == ks,
            None => r is None,
        },
{
    let ghost all = keys_view(resolved@);
    assert(all.skip(0) =~= all);
    let mut i: usize = 0;
    while i < resolved.len()
        invariant
            i <= resolved@.len(),
            all == keys_view(resolved@),
            keys_of(all, name@) == keys_of(all.skip(i as int), name@),
        decreases resolved@.len() - i,
    {
        assert(all.skip(i as int)[0] == all[i as int]);
        assert(all.skip(i as int).drop_first() =~= all.skip(i + 1));
        if str_eq(resolved[i].0.as_str(), name) {
            return Some(&resolved[i].1);
        }
        i = i + 1;
    }
    assert(all.skip(i as int).len() == 0);
    None
}

/// Reads `n` row indices one after the other from `pos`.
fn ref_indices(kind: RefKind, input: &[u8], pos: usize, n: u64) -> (r: Option<(Vec<Option<u64>>, usize)>)
    requires
        pos <= input@.len(),
    ensures
        match sp_ref_indices(kind, input@, pos as int, n as nat) {
            ByteStep::Done(m, q) => r matches Some((v, q2)) && v@ == m && q2 == q,
            _ => r is None,
        },
        r matches Some((_, q)) ==> q <= input@.len(),
{
    let ghost total = sp_ref_indices(kind, input@, pos as int, n as nat);
    let mut out: Vec<Option<u64>> = Vec::new();
    let mut at = pos;
    let mut i: u64 = 0;
    while i < n
        invariant
            i <= n,
            at <= input@.len(),
            total == sp_ref_indices(kind, input@, pos as int, n as nat),
            total == indices_after(out@, sp_ref_indices(kind, input@, at as int, (n - i) as nat)),
        decreases n - i,
    {
        match ref_index(kind, input, at) {
            Some((v, q)) => {
                let ghost old_out = out@;
                out.push(v);
                proof {
                    let rest = sp_ref_indices(kind, input@, q as int, (n - i - 1) as nat);
                    if let ByteStep::Done(r2, e) = rest {
                        assert(old_out + (seq![v] + r2) =~= out@ + r2);
                    }
                }
                at = q;
            },
            None => {
                return None;
            },
        }
        i = i + 1;
    }
    assert(out@ + Seq::<Option<u64>>::empty() =~= out@);
    Some((out, at))
}

/// The key of row `row` of the named table, as [`known_key`] says.
fn known_key_json(table: Option<&String>, resolved: &Vec<(String, Vec<Json>)>, row: u64) -> (r: Option<Json>)
    ensures
        match known_key(table_view(table), keys_view(resolved@), row) {
            Some(k) => r matches Some(j) && json_view(j) == k,
            None => r is None,
        },
{
    let t = match table {
        Some(t) => t,
        None => {
            return None;
        },
    };
    let lower = to_lowercase(t.as_str());
    let ks = match find_keys(resolved, lower.as_str()) {
        Some(ks) => ks,
        None => {
            return None;
        },
    };
    let ghost kv = ks@.map_values(|j: Json| json_view(j));
    if row < ks.len() as u64 {
        let key = &ks[row as usize];
        assert(kv[row as int] == json_view(*key));
        match key {
            Json::Null => None,
            _ => Some(clone_json(key)),
        }
    } else {
        None
    }
}

/// The table name as JSON.
fn table_name_json(table: Option<&String>) -> (r: Json)
    ensures
        json_view(r) == table_json(table_view(table)),
{
    match table {
        Some(t) => Json::Text(t.clone()),
        None => Json::Null,
    }
}

/// A scalar reference, as [`scalar_ref`] says.
fn scalar_json(table: Option<&String>, resolved: &Vec<(String, Vec<Json>)>, index: Option<u64>) -> (r: Json)
    ensures
        json_view(r) == scalar_ref(table_view(table), keys_view(resolved@), index),
{
    let row = match index {
        Some(row) => row,
        None => {
            return Json::Null;
        },
    };
    let ghost want = scalar_ref(table_view(table), keys_view(resolved@), index);
    let mut fields: Vec<(String, Json)> = Vec::new();
    fields.push(("TableName".to_owned(), table_name_json(table)));
    match known_key_json(table, resolved, row) {
        Some(k) => {
            let ghost kv = json_view(k);
            fields.push(("Id".to_owned(), k));
            let r = Json::Object(fields);
            proof {
                assert(json_view(r)->Object_0 =~= want->Object_0);
            }
            r
        },
        None => {
            fields.push(("RowIndex".to_owned(), Json::UInt(row)));
            let r = Json::Object(fields);
            proof {
                assert(json_view(Json::UInt(row)) == JsonModel::Number(row as int));
                assert(json_view(r)->Object_0 =~= want->Object_0);
            }
            r
        },
    }
}

/// One item of an array or interval of references, as [`ref_item`] says.
fn item_json(table: Option<&String>, resolved: &Vec<(String, Vec<Json>)>, index: Option<u64>) -> (r: Json)
    ensures
        json_view(r) == ref_item(table_view(table), keys_view(resolved@), index),
{
    let row = match index {
        Some(row) => row,
        None => {
            return Json::Null;
        },
    };
    match table {
        None => Json::UInt(row),
        Some(_) => match known_key_json(table, resolved, row) {
            Some(k) => k,
            None => {
                let mut fields: Vec<(String, Json)> = Vec::new();
                fields.push(("rowIndex".to_owned(), Json::UInt(row)));
                let r = Json::Object(fields);
                proof {
                    assert(json_view(Json::UInt(row)) == JsonModel::Number(row as int));
                    assert(json_view(r)->Object_0 =~= ref_item(
                        table_view(table),
                        keys_view(resolved@),
                        index,
                    )->Object_0);
                }
                r
            },
        },
    }
}

/// An array or interval of references, as [`many_refs`] says.
fn many_json(table: Option<&String>, resolved: &Vec<(String, Vec<Json>)>, indices: &Vec<Option<u64>>) -> (r: Json)
    ensures
        json_view(r) == many_refs(table_view(table), keys_view(resolved@), indices@),
{
    let ghost tv = table_view(table);
    let ghost keys = keys_view(resolved@);
    if indices.len() == 0 {
        let r = Json::Array(Vec::new());
        proof {
            assert(json_view(r)->Array_0 =~= Seq::<JsonModel>::empty());
        }
        return r;
    }
    let mut items: Vec<Json> = Vec::new();
    let mut i: usize = 0;
    while i < indices.len()
        invariant
            i <= indices@.len(),
            items@.len() == i,
            tv == table_view(table),
            keys == keys_view(resolved@),
            forall|k: int| 0 <= k < i ==> json_view(#[trigger] items@[k]) == ref_item(tv, keys, indices@[k]),
        decreases indices@.len() - i,
    {
        items.push(item_json(table, resolved, indices[i]));
        i = i + 1;
    }
    let ghost iv = indices@.map_values(|x: Option<u64>| ref_item(tv, keys, x));
    let arr = Json::Array(items);
    proof {
        assert(json_view(arr)->Array_0 =~= iv);
    }
    let ghost av = json_view(arr);
    let name = match table {
        Some(_) => "Ids".to_owned(),
        None => "RowIndices".to_owned(),
    };
    let mut fields: Vec<(String, Json)> = Vec::new();
    fields.push(("TableName".to_owned(), table_name_json(table)));
    fields.push((name, arr));
    let r = Json::Object(fields);
    proof {
        assert(json_view(r)->Object_0 =~= many_refs(tv, keys, indices@)->Object_0);
    }
    r
}

/// Reads a reference column's cell at `pos` of a row into JSON, resolving each row index with the
/// keys in `resolved` (per lower-case table name, the key of each row, null for none).
pub fn ref_column(
    column: &ColumnSchema,
    variable_section: &[u8],
    resolved: &Vec<(String, Vec<Json>)>,
    input: &[u8],
    pos: usize,
) -> (r: Option<(Json, usize)>)
    requires
        pos <= input@.len(),
        !(column.array && column.interval),
    ensures
        match sp_ref_column(*column, variable_section@, keys_view(resolved@), input@, pos as int) {
            ByteStep::Done(m, q) => r matches Some((v, q2)) && json_view(v) == m && q2 == q,
            _ => r is None,
        },
        r matches Some((_, q)) ==> q <= input@.len(),
{
    let kind = ref_kind_of(column.column_type.as_str());
    let table: Option<&String> = match &column.references {
        Some(r) => Some(&r.table),
        None => None,
    };
    if column.array {
        if input.len() - pos < 16 {
            return None;
        }
        let length = parse_u64(&input[pos..pos + 8]);
        let pointer = parse_u64(&input[pos + 8..pos + 16]);
        let vs_len = variable_section.len();
        if 8 <= pointer && pointer - 8 < vs_len as u64 {
            let start = (pointer - 8) as usize;
            let tail = &variable_section[start..vs_len];
            assert(tail@ =~= variable_section@.skip(start as int));
            match ref_indices(kind, tail, 0, length) {
                Some((indices, _)) => Some((many_json(table, resolved, &indices), pos + 16)),
                None => None,
            }
        } else {
            Some((Json::Null, pos + 16))
        }
    } else if column.interval {
        match ref_indices(kind, input, pos, 2) {
            Some((indices, q)) => Some((many_json(table, resolved, &indices), q)),
            None => None,
        }
    } else {
        match ref_index(kind, input, pos) {
            Some((index, q)) => Some((scalar_json(table, resolved, index), q)),
            None => None,
        }
    }
}

/// The JSON model of a plain item.
pub open spec fn plain_item_json(i: JsonItemModel) -> JsonModel {
    match i {
        JsonItemModel::Null => JsonModel::Null,
        JsonItemModel::Bool(b) => JsonModel::Bool(b),
        JsonItemModel::Int(n) => JsonModel::Number(n),
        JsonItemModel::F32Bits(f) => JsonModel::F32Bits(f),
        JsonItemModel::Text(t) => JsonModel::Text(t),
    }
}

/// The JSON model of a plain cell: one item, or an array of them.
pub open spec fn plain_json(m: PlainModel) -> JsonModel {
    match m {
        PlainModel::One(i) => plain_item_json(i),
        PlainModel::Many(v) => JsonModel::Array(v.map_values(|i: JsonItemModel| plain_item_json(i))),
    }
}

/// Whether a column is read as a reference: its type is one of the reference types.
pub open spec fn is_ref_column(c: ColumnSchema) -> bool {
    ref_kind(c.column_type@) != RefKind::Other
}

/// One cell of a row at `p`: a reference cell or a plain cell, by the column's type. A column
/// that is both an array and an interval cannot be read: reading panics there.
pub open spec fn sp_cell(
    c: ColumnSchema,
    vs: Seq<u8>,
    keys: Seq<(Seq<char>, Seq<JsonModel>)>,
    b: Seq<u8>,
    p: int,
) -> ByteStep<JsonModel> {
    if c.array && c.interval {
        ByteStep::Abort
    } else if is_ref_column(c) {
        sp_ref_column(c, vs, keys, b, p)
    } else {
        match sp_plain_column(c, vs, b, p) {
            ByteStep::Done(m, q) => ByteStep::Done(plain_json(m), q),
            ByteStep::Fail => ByteStep::Fail,
            ByteStep::Abort => ByteStep::Abort,
        }
    }
}

/// `fields` with `name` set to `v`: where a field is already named so, its value is replaced,
/// else the field is added at the end.
pub open spec fn set_field(fields: Seq<(Seq<char>, JsonModel)>, name: Seq<char>, v: JsonModel) -> Seq<
    (Seq<char>, JsonModel),
> {
    if exists|k: int| 0 <= k < fields.len() && (#[trigger] fields[k]).0 == name {
        fields.map_values(
            |f: (Seq<char>, JsonModel)|
                if f.0 == name {
                    (name, v)
                } else {
                    f
                },
        )
    } else {
        fields.push((name, v))
    }
}

/// The fields of a row read from column `i` on, each column under its name, added to `fields`.
/// Reading stops at the first cell that cannot be read (too few bytes, or a type that is no
/// column type), keeping the fields read before it.
pub open spec fn sp_row_fields(
    cols: Seq<ColumnSchema>,
    names: Seq<Seq<char>>,
    vs: Seq<u8>,
    keys: Seq<(Seq<char>, Seq<JsonModel>)>,
    b: Seq<u8>,
    p: int,
    i: int,
    fields: Seq<(Seq<char>, JsonModel)>,
) -> Option<Seq<(Seq<char>, JsonModel)>>
    decreases cols.len() - i,
{
    if i < 0 || i >= cols.len() || i >= names.len() {
        Some(fields)
    } else {
        match sp_cell(cols[i], vs, keys, b, p) {
            ByteStep::Fail => Some(fields),
            ByteStep::Abort => None,
            ByteStep::Done(v, q) => sp_row_fields(
                cols,
                names,
                vs,
                keys,
                b,
                q,
                i + 1,
                set_field(fields, names[i], v),
            ),
        }
    }
}

/// A plain cell as JSON.
fn plain_to_json(v: PlainValue) -> (r: Json)
    ensures
        json_view(r) == plain_json(v@),
{
    match v {
        PlainValue::One(i) => one_plain_item_json(i),
        PlainValue::Many(items) => {
            let ghost iv = items@;
            let mut out: Vec<Json> = Vec::new();
            let mut k: usize = 0;
            while k < items.len()
                invariant
                    k <= items@.len(),
                    out@.len() == k,
                    forall|j: int| 0 <= j < k ==> json_view(#[trigger] out@[j]) == plain_item_json(
                        items@[j]@,
                    ),
                decreases items@.len() - k,
            {
                out.push(item_ref_json(&items[k]));
                k = k + 1;
            }
            let r = Json::Array(out);
            proof {
                assert(json_view(r)->Array_0 =~= items@.map_values(|i: JsonItem| i@).map_values(
                    |i: JsonItemModel| plain_item_json(i),
                ));
            }
            r
        },
    }
}

/// A plain item as JSON.
fn one_plain_item_json(i: JsonItem) -> (r: Json)
    ensures
        json_view(r) == plain_item_json(i@),
{
    match i {
        JsonItem::Null => Json::Null,
        JsonItem::Bool(b) => Json::Bool(b),
        JsonItem::Int(n) => Json::Int(n),
        JsonItem::F32Bits(f) => Json::F32Bits(f),
        JsonItem::Text(t) => Json::Text(t),
    }
}

/// A borrowed plain item as JSON.
fn item_ref_json(i: &JsonItem) -> (r: Json)
    ensures
        json_view(r) == plain_item_json(i@),
{
    match i {
        JsonItem::Null => Json::Null,
        JsonItem::Bool(b) => Json::Bool(*b),
        JsonItem::Int(n) => Json::Int(*n),
        JsonItem::F32Bits(f) => Json::F32Bits(*f),
        JsonItem::Text(t) => Json::Text(t.clone()),
    }
}

/// The models of some named fields.
pub open spec fn fields_view(fields: Seq<(String, Json)>) -> Seq<(Seq<char>, JsonModel)> {
    fields.map_values(|f: (String, Json)| (f.0@, json_view(f.1)))
}

/// Sets field `name` to `v`, as [`set_field`] says.
fn set_field_json(fields: &mut Vec<(String, Json)>, name: &String, v: Json)
    ensures
        fields_view(final(fields)@) == set_field(fields_view(old(fields)@), name@, json_view(v)),
{
    let ghost fv = fields_view(fields@);
    let ghost vv = json_view(v);
    let ghost want = fv.map_values(
        |f: (Seq<char>, JsonModel)|
            if f.0 == name@ {
                (name@, vv)
            } else {
                f
            },
    );
    let mut out: Vec<(String, Json)> = Vec::new();
    let mut found = false;
    let mut k: usize = 0;
    while k < fields.len()
        invariant
            k <= fields@.len(),
            fv == fields_view(fields@),
            vv == json_view(v),
            want == fv.map_values(
                |f: (Seq<char>, JsonModel)|
                    if f.0 == name@ {
                        (name@, vv)
                    } else {
                        f
                    },
            ),
            fields_view(out@) == want.take(k as int),
            found <==> exists|j: int| 0 <= j < k && (#[trigger] fv[j]).0 == name@,
        decreases fields@.len() - k,
    {
        let ghost before = fields_view(out@);
        let entry = if str_eq(fields[k].0.as_str(), name.as_str()) {
            found = true;
            (name.clone(), clone_json(&v))
        } else {
            (fields[k].0.clone(), clone_json(&fields[k].1))
        };
        assert(fv[k as int] == (fields@[k as int].0@, json_view(fields@[k as int].1)));
        out.push(entry);
        assert(fields_view(out@) =~= before.push(want[k as int]));
        assert(want.take(k + 1) =~= want.take(k as int).push(want[k as int]));
        k = k + 1;
    }
    assert(want.take(fv.len() as int) =~= want);
    if found {
        *fields = out;
    } else {
        fields.push((name.clone(), v));
        assert(fields_view(fields@) =~= fv.push((name@, vv)));
    }
}

/// Reads one row of a table by its schema's columns, each cell under the column's name in
/// `names` (taken in pairs as long as both last), resolving references with the keys in
/// `resolved`: the row's fields as a JSON object. Reading stops at the first cell that cannot be
/// read, keeping the fields before it; bytes left after the last column are skipped.
pub fn create_parser(
    resolved: &Vec<(String, Vec<Json>)>,
    variable_section: &[u8],
    columns: &Vec<ColumnSchema>,
    names: &Vec<String>,
    row: &[u8],
) -> (r: Json)
    requires
        sp_row_fields(
            columns@,
            names@.map_values(|n: String| n@),
            variable_section@,
            keys_view(resolved@),
            row@,
            0,
            0,
            Seq::empty(),
        ) is Some,
    ensures
        sp_row_fields(
            columns@,
            names@.map_values(|n: String| n@),
            variable_section@,
            keys_view(resolved@),
            row@,
            0,
            0,
            Seq::empty(),
        ) matches Some(f) && json_view(r) == JsonModel::Object(f),
{
    let ghost nv = names@.map_values(|n: String| n@);
    let ghost keys = keys_view(resolved@);
    let ghost total = sp_row_fields(columns@, nv, variable_section@, keys, row@, 0, 0, Seq::empty());
    let mut fields: Vec<(String, Json)> = Vec::new();
    assert(fields_view(fields@) =~= Seq::<(Seq<char>, JsonModel)>::empty());
    let mut pos: usize = 0;
    let mut i: usize = 0;
    while i < columns.len() && i < names.len()
        invariant
            i <= columns@.len(),
            pos <= row@.len(),
            nv == names@.map_values(|n: String| n@),
            keys == keys_view(resolved@),
            total == sp_row_fields(columns@, nv, variable_section@, keys, row@, 0, 0, Seq::empty()),
            total is Some,
            total == sp_row_fields(
                columns@,
                nv,
                variable_section@,
                keys,
                row@,
                pos as int,
                i as int,
                fields_view(fields@),
            ),
        decreases columns@.len() - i,
    {
        let column = &columns[i];
        assert(nv[i as int] == names@[i as int]@);
        proof {
            // Such a column would make the row panic, which the precondition rules out.
            assert(!(column.array && column.interval));
        }
        let cell = if ref_kind_of(column.column_type.as_str()) != RefKind::Other {
            ref_column(column, variable_section, resolved, row, pos)
        } else {
            match plain_column(column, variable_section, row, pos) {
                Some((v, q)) => Some((plain_to_json(v), q)),
                None => None,
            }
        };
        match cell {
            Some((v, q)) => {
                set_field_json(&mut fields, &names[i], v);
                pos = q;
            },
            None => {
                let ghost fw = fields_view(fields@);
                let r = Json::Object(fields);
                assert(json_view(r)->Object_0 =~= fw);
                return r;
            },
        }
        i = i + 1;
    }
    let ghost fw = fields_view(fields@);
    let r = Json::Object(fields);
    assert(json_view(r)->Object_0 =~= fw);
    r
}

} // verus!
