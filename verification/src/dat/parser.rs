//! Reading the plain columns of a table row into JSON-shaped values: numbers, booleans, strings
//! from the variable data section, and arrays of them. A value that cannot be taken (a string
//! offset or an array pointer outside the variable section, a boolean byte above 2) becomes null;
//! running out of bytes, or a column type that is not plain, fails the read.
use vstd::prelude::*;
use crate::text::str_eq;
use crate::utf16::{decode_utf16_units, spec_utf16_cstr, take_utf16_string, utf16_units_until_nul};
use super::columns::{
    parse_i16, parse_i32, parse_u16, parse_u32, parse_u64, spec_i16, spec_i32, spec_u16, spec_u32,
    spec_u64,
};
use super::schema::ColumnSchema;

verus! {

/// One JSON value of a plain column. A 32-bit float is kept as its bits.
#[derive(Debug, PartialEq)]
pub enum JsonItem {
    Null,
    Bool(bool),
    Int(i64),
    F32Bits(u32),
    Text(String),
}

/// Model of a [`JsonItem`].
pub enum JsonItemModel {
    Null,
    Bool(bool),
    Int(int),
    F32Bits(u32),
    Text(Seq<char>),
}

impl View for JsonItem {
    type V = JsonItemModel;

    open spec fn view(&self) -> JsonItemModel {
        match self {
            JsonItem::Null => JsonItemModel::Null,
            JsonItem::Bool(b) => JsonItemModel::Bool(*b),
            JsonItem::Int(i) => JsonItemModel::Int(*i as int),
            JsonItem::F32Bits(f) => JsonItemModel::F32Bits(*f),
            JsonItem::Text(s) => JsonItemModel::Text(s@),
        }
    }
}

/// What a plain column gives for a row: one value, or a JSON array of them.
#[derive(Debug, PartialEq)]
pub enum PlainValue {
    One(JsonItem),
    Many(Vec<JsonItem>),
}

/// Model of a [`PlainValue`].
pub enum PlainModel {
    One(JsonItemModel),
    Many(Seq<JsonItemModel>),
}

/// The models of some items.
pub open spec fn items_view(items: Seq<JsonItem>) -> Seq<JsonItemModel> {
    items.map_values(|i: JsonItem| i@)
}

impl View for PlainValue {
    type V = PlainModel;

    open spec fn view(&self) -> PlainModel {
        match self {
            PlainValue::One(i) => PlainModel::One(i@),
            PlainValue::Many(v) => PlainModel::Many(items_view(v@)),
        }
    }
}

/// Reading from bytes at a position.
pub enum ByteStep<T> {
    /// The value read and the position after it
    Done(T, int),
    /// Too few bytes, or a type that cannot be read
    Fail,
    /// A string in the variable section that is not valid UTF-16: reading panics there
    Abort,
}

/// The kinds of item a plain column holds, by the schema's type name.
#[derive(Clone, Copy, PartialEq, Eq, Structural)]
pub enum ItemKind {
    Str,
    U32,
    I32,
    F32,
    U16,
    I16,
    Bool,
    Array,
    Other,
}

/// The kind of item that a type name names.
pub open spec fn item_kind(ty: Seq<char>) -> ItemKind {
    if ty == "string"@ {
        ItemKind::Str
    } else if ty == "u32"@ {
        ItemKind::U32
    } else if ty == "i32"@ {
        ItemKind::I32
    } else if ty == "f32"@ {
        ItemKind::F32
    } else if ty == "u16"@ {
        ItemKind::U16
    } else if ty == "i16"@ {
        ItemKind::I16
    } else if ty == "bool"@ {
        ItemKind::Bool
    } else if ty == "array"@ {
        ItemKind::Array
    } else {
        ItemKind::Other
    }
}

/// Whether `n` bytes are there at `p`.
pub open spec fn fits(b: Seq<u8>, p: int, n: int) -> bool {
    0 <= p && p + n <= b.len()
}

/// A string cell: an 8-byte offset into the variable section, counted from 8. An offset inside
/// the section gives the null-terminated UTF-16 string there; any other offset gives nothing.
pub open spec fn sp_string_cell(vs: Seq<u8>, b: Seq<u8>, p: int) -> ByteStep<Option<Seq<char>>> {
    if fits(b, p, 8) {
        let offset = spec_u64(b.subrange(p, p + 8));
        if 8 <= offset < vs.len() + 8 {
            match spec_utf16_cstr(vs.skip(offset - 8)) {
                Some(s) => ByteStep::Done(Some(s), p + 8),
                None => ByteStep::Abort,
            }
        } else {
            ByteStep::Done(None, p + 8)
        }
    } else {
        ByteStep::Fail
    }
}

/// A fixed-width number of `n` bytes at `p`, with `f` its value.
pub open spec fn number_cell(b: Seq<u8>, p: int, n: int, f: spec_fn(Seq<u8>) -> JsonItemModel) -> ByteStep<JsonItemModel> {
    if fits(b, p, n) {
        ByteStep::Done(f(b.subrange(p, p + n)), p + n)
    } else {
        ByteStep::Fail
    }
}

/// One item of the given kind at `p` of `b`; strings are looked up in `vs`.
pub open spec fn sp_plain_item(kind: ItemKind, vs: Seq<u8>, b: Seq<u8>, p: int) -> ByteStep<JsonItemModel> {
    match kind {
        ItemKind::Str => match sp_string_cell(vs, b, p) {
            ByteStep::Done(Some(s), q) => ByteStep::Done(JsonItemModel::Text(s), q),
            ByteStep::Done(None, q) => ByteStep::Done(JsonItemModel::Null, q),
            ByteStep::Fail => ByteStep::Fail,
            ByteStep::Abort => ByteStep::Abort,
        },
        ItemKind::U32 => number_cell(b, p, 4, |x: Seq<u8>| JsonItemModel::Int(spec_u32(x) as int)),
        ItemKind::I32 => number_cell(b, p, 4, |x: Seq<u8>| JsonItemModel::Int(spec_i32(x) as int)),
        ItemKind::F32 => number_cell(b, p, 4, |x: Seq<u8>| JsonItemModel::F32Bits(spec_u32(x))),
        ItemKind::U16 => number_cell(b, p, 2, |x: Seq<u8>| JsonItemModel::Int(spec_u16(x) as int)),
        ItemKind::I16 => number_cell(b, p, 2, |x: Seq<u8>| JsonItemModel::Int(spec_i16(x) as int)),
        ItemKind::Bool => number_cell(
            b,
            p,
            1,
            |x: Seq<u8>|
                if x[0] <= 2 {
                    JsonItemModel::Bool(x[0] == 1)
                } else {
                    JsonItemModel::Null
                },
        ),
        ItemKind::Array => ByteStep::Done(JsonItemModel::Null, p),
        ItemKind::Other => ByteStep::Fail,
    }
}

/// `n` items one after the other from `p`.
pub open spec fn sp_plain_items(kind: ItemKind, vs: Seq<u8>, b: Seq<u8>, p: int, n: nat) -> ByteStep<Seq<JsonItemModel>>
    decreases n,
{
    if n == 0 {
        ByteStep::Done(Seq::empty(), p)
    } else {
        match sp_plain_item(kind, vs, b, p) {
            ByteStep::Done(v, q) => match sp_plain_items(kind, vs, b, q, (n - 1) as nat) {
                ByteStep::Done(rest, end) => ByteStep::Done(seq![v] + rest, end),
                ByteStep::Fail => ByteStep::Fail,
                ByteStep::Abort => ByteStep::Abort,
            },
            ByteStep::Fail => ByteStep::Fail,
            ByteStep::Abort => ByteStep::Abort,
        }
    }
}

/// A plain column's cell at `p` of a row `b`. An array cell holds an 8-byte length and an
/// 8-byte pointer into the variable section (counted from 8); its items are read there, and a
/// pointer outside the section gives null. An interval holds two items; any other cell one.
pub open spec fn sp_plain_column(column: ColumnSchema, vs: Seq<u8>, b: Seq<u8>, p: int) -> ByteStep<PlainModel> {
    let kind = item_kind(column.column_type@);
    if column.array {
        if fits(b, p, 16) {
            let length = spec_u64(b.subrange(p, p + 8));
            let pointer = spec_u64(b.subrange(p + 8, p + 16));
            if 8 <= pointer < vs.len() + 8 {
                match sp_plain_items(kind, vs, vs.skip(pointer - 8), 0, length as nat) {
                    ByteStep::Done(items, _) => ByteStep::Done(PlainModel::Many(items), p + 16),
                    ByteStep::Fail => ByteStep::Fail,
                    ByteStep::Abort => ByteStep::Abort,
                }
            } else {
                ByteStep::Done(PlainModel::One(JsonItemModel::Null), p + 16)
            }
        } else {
            ByteStep::Fail
        }
    } else if column.interval {
        match sp_plain_items(kind, vs, b, p, 2) {
            ByteStep::Done(items, q) => ByteStep::Done(PlainModel::Many(items), q),
            ByteStep::Fail => ByteStep::Fail,
            ByteStep::Abort => ByteStep::Abort,
        }
    } else {
        match sp_plain_item(kind, vs, b, p) {
            ByteStep::Done(v, q) => ByteStep::Done(PlainModel::One(v), q),
            ByteStep::Fail => ByteStep::Fail,
            ByteStep::Abort => ByteStep::Abort,
        }
    }
}

/// The kind of item that a column's type name names.
fn kind_of(ty: &str) -> (r: ItemKind)
    ensures
        r == item_kind(ty@),
{
    if str_eq(ty, "string") {
        ItemKind::Str
    } else if str_eq(ty, "u32") {
        ItemKind::U32
    } else if str_eq(ty, "i32") {
        ItemKind::I32
    } else if str_eq(ty, "f32") {
        ItemKind::F32
    } else if str_eq(ty, "u16") {
        ItemKind::U16
    } else if str_eq(ty, "i16") {
        ItemKind::I16
    } else if str_eq(ty, "bool") {
        ItemKind::Bool
    } else if str_eq(ty, "array") {
        ItemKind::Array
    } else {
        ItemKind::Other
    }
}

/// Reads a string cell at `pos` of `input`, looking the string up in the variable section.
pub fn string(variable_section: &[u8], input: &[u8], pos: usize) -> (r: Option<(Option<String>, usize)>)
    requires
        !(sp_string_cell(variable_section@, input@, pos as int) is Abort),
    ensures
        match sp_string_cell(variable_section@, input@, pos as int) {
            ByteStep::Done(s, q) => r matches Some((v, q2)) && v.deep_view() == s && q2 == q,
            _ => r is None,
        },
{
    if pos > input.len() || input.len() - pos < 8 {
        return None;
    }
    let offset = parse_u64(&input[pos..pos + 8]);
    let vs_len = variable_section.len();
    if 8 <= offset && offset - 8 < vs_len as u64 {
        let start = (offset - 8) as usize;
        let tail = &variable_section[start..vs_len];
        assert(tail@ =~= variable_section@.skip(start as int));
        Some((Some(take_utf16_string(tail)), pos + 8))
    } else {
        Some((None, pos + 8))
    }
}

/// Reads one item of the given kind at `pos` of `input`.
fn plain_item(kind: ItemKind, variable_section: &[u8], input: &[u8], pos: usize) -> (r: Option<(JsonItem, usize)>)
    requires
        pos <= input@.len(),
        !(sp_plain_item(kind, variable_section@, input@, pos as int) is Abort),
    ensures
        match sp_plain_item(kind, variable_section@, input@, pos as int) {
            ByteStep::Done(m, q) => r matches Some((v, q2)) && v@ == m && q2 == q,
            _ => r is None,
        },
        r matches Some((_, q)) ==> pos <= q <= input@.len(),
{
    let left = input.len() - pos;
    match kind {
        ItemKind::Str => match string(variable_section, input, pos) {
            Some((Some(s), q)) => Some((JsonItem::Text(s), q)),
            Some((None, q)) => Some((JsonItem::Null, q)),
            None => None,
        },
        ItemKind::U32 => if left >= 4 {
            Some((JsonItem::Int(parse_u32(&input[pos..pos + 4]) as i64), pos + 4))
        } else {
            None
        },
        ItemKind::I32 => if left >= 4 {
            Some((JsonItem::Int(parse_i32(&input[pos..pos + 4]) as i64), pos + 4))
        } else {
            None
        },
        ItemKind::F32 => if left >= 4 {
            Some((JsonItem::F32Bits(parse_u32(&input[pos..pos + 4])), pos + 4))
        } else {
            None
        },
        ItemKind::U16 => if left >= 2 {
            Some((JsonItem::Int(parse_u16(&input[pos..pos + 2]) as i64), pos + 2))
        } else {
            None
        },
        ItemKind::I16 => if left >= 2 {
            Some((JsonItem::Int(parse_i16(&input[pos..pos + 2]) as i64), pos + 2))
        } else {
            None
        },
        ItemKind::Bool => if left >= 1 {
            let b = input[pos];
            let ghost x = input@.subrange(pos as int, pos + 1);
            assert(x[0] == b);
            let v = if b <= 2 {
                JsonItem::Bool(b == 1)
            } else {
                JsonItem::Null
            };
            Some((v, pos + 1))
        } else {
            None
        },
        ItemKind::Array => Some((JsonItem::Null, pos)),
        ItemKind::Other => None,
    }
}

/// `prefix` put before what a run of items gives.
pub open spec fn after_prefix(prefix: Seq<JsonItemModel>, step: ByteStep<Seq<JsonItemModel>>) -> ByteStep<Seq<JsonItemModel>> {
    match step {
        ByteStep::Done(rest, end) => ByteStep::Done(prefix + rest, end),
        ByteStep::Fail => ByteStep::Fail,
        ByteStep::Abort => ByteStep::Abort,
    }
}

/// Reads `n` items one after the other from `pos` of `input`.
fn plain_items(kind: ItemKind, variable_section: &[u8], input: &[u8], pos: usize, n: u64) -> (r: Option<(Vec<JsonItem>, usize)>)
    requires
        pos <= input@.len(),
        !(sp_plain_items(kind, variable_section@, input@, pos as int, n as nat) is Abort),
    ensures
        match sp_plain_items(kind, variable_section@, input@, pos as int, n as nat) {
            ByteStep::Done(m, q) => r matches Some((v, q2)) && items_view(v@) == m && q2 == q,
            _ => r is None,
        },
        r matches Some((_, q)) ==> q <= input@.len(),
{
    let ghost vs = variable_section@;
    let ghost b = input@;
    let ghost total = sp_plain_items(kind, vs, b, pos as int, n as nat);
    let mut out: Vec<JsonItem> = Vec::new();
    let mut at = pos;
    let mut i: u64 = 0;
    while i < n
        invariant
            i <= n,
            at <= b.len(),
            vs == variable_section@,
            b == input@,
            total == sp_plain_items(kind, vs, b, pos as int, n as nat),
            !(total is Abort),
            total == after_prefix(items_view(out@), sp_plain_items(kind, vs, b, at as int, (n - i) as nat)),
        decreases n - i,
    {
        match plain_item(kind, variable_section, input, at) {
            Some((v, q)) => {
                let ghost old_out = out@;
                out.push(v);
                assert(items_view(out@) =~= items_view(old_out) + seq![v@]);
                proof {
                    let rest = sp_plain_items(kind, vs, b, q as int, (n - i - 1) as nat);
                    if let ByteStep::Done(r2, e) = rest {
                        assert(items_view(old_out) + (seq![v@] + r2) =~= items_view(out@) + r2);
                    }
                }
                at = q;
            },
            None => {
                return None;
            },
        }
        i = i + 1;
    }
    assert(items_view(out@) + Seq::<JsonItemModel>::empty() =~= items_view(out@));
    Some((out, at))
}

/// Reads a plain column's cell at `pos` of a row: a number, boolean or string, an interval of
/// two, or an array of them from the variable section.
pub fn plain_column(column: &ColumnSchema, variable_section: &[u8], input: &[u8], pos: usize) -> (r: Option<(PlainValue, usize)>)
    requires
        pos <= input@.len(),
        !(column.array && column.interval),
        !(sp_plain_column(*column, variable_section@, input@, pos as int) is Abort),
    ensures
        match sp_plain_column(*column, variable_section@, input@, pos as int) {
            ByteStep::Done(m, q) => r matches Some((v, q2)) && v@ == m && q2 == q,
            _ => r is None,
        },
        r matches Some((_, q)) ==> q <= input@.len(),
{
    let kind = kind_of(column.column_type.as_str());
    if column.array {
        if input.len() - pos < 16 {
            return None;
        }
        let length = parse_u64(&input[pos..pos + 8]);
        let pointer = parse_u64(&input[pos + 8..pos + 16]);
        let vs_len = variable_section.len();
        if 8 <= pointer && pointer - 8 < vs_len as u64 {
            let start = (pointer - 8) as usize;
            let tail = &variable_section[start..vs_len];
            assert(tail@ =~= variable_section@.skip(start as int));
            match plain_items(kind, variable_section, tail, 0, length) {
                Some((items, _)) => Some((PlainValue::Many(items), pos + 16)),
                None => None,
            }
        } else {
            Some((PlainValue::One(JsonItem::Null), pos + 16))
        }
    } else if column.interval {
        match plain_items(kind, variable_section, input, pos, 2) {
            Some((items, q)) => Some((PlainValue::Many(items), q)),
            None => None,
        }
    } else {
        match plain_item(kind, variable_section, input, pos) {
            Some((v, q)) => Some((PlainValue::One(v), q)),
            None => None,
        }
    }
}

} // verus!
