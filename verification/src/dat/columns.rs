//! Applying a table schema to the columns of a data table.
use vstd::prelude::*;
use crate::bytes::{le_value, read_le};
use crate::text::str_eq;
use super::schema::ColumnSchema;
use super::table_view::{
    array_result_view, collect_results, lemma_collect_stuck, parsed_row, produced_by,
    spec_col_arrays, spec_col_string_arrays, spec_col_strings, spec_view_col, spec_width,
    string_array_cell, string_array_cell_readable, string_arrays_collect_readable, string_cell,
    string_cell_in_bounds, string_cell_readable, string_result_view, strings_collect_readable,
    strings_result_view, cell_strings_readable, cell_string_arrays_readable,
    spec_string_array_cell, spec_string_cell, DatError, DatFile,
};

verus! {

/// The values of one column of a data table, by column type. Arrays hold one list per row.
/// `f32` values are kept as their IEEE 754 bit patterns.
#[derive(Debug, PartialEq)]
pub enum ColumnData {
    StringArrays(Vec<Vec<Option<String>>>),
    ForeignRowArrays(Vec<Vec<u64>>),
    RowArrays(Vec<Vec<Option<u64>>>),
    U32Arrays(Vec<Vec<u32>>),
    F32Arrays(Vec<Vec<u32>>),
    I32Arrays(Vec<Vec<i32>>),
    I16Arrays(Vec<Vec<i16>>),
    U16Arrays(Vec<Vec<u16>>),
    Strings(Vec<Option<String>>),
    OptU64s(Vec<Option<u64>>),
    U32s(Vec<u32>),
    F32s(Vec<u32>),
    I32s(Vec<i32>),
    I16s(Vec<i16>),
    U16s(Vec<u16>),
    Bools(Vec<bool>),
}

/// Mathematical model of [`ColumnData`].
pub enum ColumnDataModel {
    StringArrays(Seq<Seq<Option<Seq<char>>>>),
    ForeignRowArrays(Seq<Seq<u64>>),
    RowArrays(Seq<Seq<Option<u64>>>),
    U32Arrays(Seq<Seq<u32>>),
    F32Arrays(Seq<Seq<u32>>),
    I32Arrays(Seq<Seq<i32>>),
    I16Arrays(Seq<Seq<i16>>),
    U16Arrays(Seq<Seq<u16>>),
    Strings(Seq<Option<Seq<char>>>),
    OptU64s(Seq<Option<u64>>),
    U32s(Seq<u32>),
    F32s(Seq<u32>),
    I32s(Seq<i32>),
    I16s(Seq<i16>),
    U16s(Seq<u16>),
    Bools(Seq<bool>),
}

/// The lists of a list column, each by its view.
pub open spec fn lists_view<T>(v: Seq<Vec<T>>) -> Seq<Seq<T>> {
    v.map_values(|x: Vec<T>| x@)
}

impl DeepView for ColumnData {
    type V = ColumnDataModel;

    open spec fn deep_view(&self) -> ColumnDataModel {
        match self {
            ColumnData::StringArrays(v) => ColumnDataModel::StringArrays(v.deep_view()),
            ColumnData::ForeignRowArrays(v) => ColumnDataModel::ForeignRowArrays(lists_view(v@)),
            ColumnData::RowArrays(v) => ColumnDataModel::RowArrays(lists_view(v@)),
            ColumnData::U32Arrays(v) => ColumnDataModel::U32Arrays(lists_view(v@)),
            ColumnData::F32Arrays(v) => ColumnDataModel::F32Arrays(lists_view(v@)),
            ColumnData::I32Arrays(v) => ColumnDataModel::I32Arrays(lists_view(v@)),
            ColumnData::I16Arrays(v) => ColumnDataModel::I16Arrays(lists_view(v@)),
            ColumnData::U16Arrays(v) => ColumnDataModel::U16Arrays(lists_view(v@)),
            ColumnData::Strings(v) => ColumnDataModel::Strings(v.deep_view()),
            ColumnData::OptU64s(v) => ColumnDataModel::OptU64s(v@),
            ColumnData::U32s(v) => ColumnDataModel::U32s(v@),
            ColumnData::F32s(v) => ColumnDataModel::F32s(v@),
            ColumnData::I32s(v) => ColumnDataModel::I32s(v@),
            ColumnData::I16s(v) => ColumnDataModel::I16s(v@),
            ColumnData::U16s(v) => ColumnDataModel::U16s(v@),
            ColumnData::Bools(v) => ColumnDataModel::Bools(v@),
        }
    }
}

/// Why a column could not be read.
#[derive(Debug, Clone, Copy, PartialEq, Eq, Structural)]
pub enum ColumnError {
    /// An array column whose item type is itself "array", which is unknown
    UnknownArrayType,
    /// A column type that this kind of column does not support
    UnknownColumnType,
    /// A column marked both array and interval
    ArrayAndInterval,
    /// A failure to read the table's bytes
    Dat(DatError),
    /// A boolean byte other than 0 or 1
    InvalidBool(u8),
}

pub open spec fn spec_u16(b: Seq<u8>) -> u16 {
    le_value(b, 0, 2) as u16
}

pub open spec fn spec_i16(b: Seq<u8>) -> i16 {
    let v = le_value(b, 0, 2);
    if v >= 0x8000 {
        (v - 0x1_0000) as i16
    } else {
        v as i16
    }
}

pub open spec fn spec_u32(b: Seq<u8>) -> u32 {
    le_value(b, 0, 4) as u32
}

pub open spec fn spec_i32(b: Seq<u8>) -> i32 {
    let v = le_value(b, 0, 4);
    if v >= 0x8000_0000 {
        (v - 0x1_0000_0000) as i32
    } else {
        v as i32
    }
}

pub open spec fn spec_u64(b: Seq<u8>) -> u64 {
    le_value(b, 0, 8) as u64
}

/// A 128-bit foreign row index, cut down to its low 64 bits.
pub open spec fn spec_foreignrow(b: Seq<u8>) -> u64 {
    le_value(b, 0, 8) as u64
}

/// A 16-byte foreign row index; all bytes 0xfe mean no row.
pub open spec fn spec_maybe_foreignrow(b: Seq<u8>) -> Option<u64> {
    if b == Seq::new(16, |_i: int| 0xfeu8) {
        None
    } else {
        Some(spec_foreignrow(b))
    }
}

/// An 8-byte row index; all bytes 0xfe mean no row.
pub open spec fn spec_maybe_row(b: Seq<u8>) -> Option<u64> {
    if b == Seq::new(8, |_i: int| 0xfeu8) {
        None
    } else {
        Some(spec_u64(b))
    }
}

/// A boolean byte.
pub open spec fn spec_bool(b: Seq<u8>) -> Result<bool, ColumnError> {
    if b[0] < 2 {
        Ok(b[0] == 1)
    } else {
        Err(ColumnError::InvalidBool(b[0]))
    }
}

/// Reads a foreign row cell.
pub open spec fn foreignrow_reader() -> spec_fn(Seq<u8>) -> u64 {
    |b: Seq<u8>| spec_foreignrow(b)
}

/// Reads a nullable foreign row cell.
pub open spec fn maybe_foreignrow_reader() -> spec_fn(Seq<u8>) -> Option<u64> {
    |b: Seq<u8>| spec_maybe_foreignrow(b)
}

/// Reads a nullable row cell.
pub open spec fn maybe_row_reader() -> spec_fn(Seq<u8>) -> Option<u64> {
    |b: Seq<u8>| spec_maybe_row(b)
}

/// Reads a `u32` cell (also enum rows and the bits of an `f32`).
pub open spec fn u32_reader() -> spec_fn(Seq<u8>) -> u32 {
    |b: Seq<u8>| spec_u32(b)
}

/// Reads an `i32` cell.
pub open spec fn i32_reader() -> spec_fn(Seq<u8>) -> i32 {
    |b: Seq<u8>| spec_i32(b)
}

/// Reads an `i16` cell.
pub open spec fn i16_reader() -> spec_fn(Seq<u8>) -> i16 {
    |b: Seq<u8>| spec_i16(b)
}

/// Reads a `u16` cell.
pub open spec fn u16_reader() -> spec_fn(Seq<u8>) -> u16 {
    |b: Seq<u8>| spec_u16(b)
}

/// Reads a boolean cell.
pub open spec fn bool_reader() -> spec_fn(Seq<u8>) -> Result<bool, ColumnError> {
    |b: Seq<u8>| spec_bool(b)
}

/// Reads an interval cell: two `i32` values.
pub open spec fn interval_reader() -> spec_fn(Seq<u8>) -> (i32, i32) {
    |b: Seq<u8>| (spec_i32(b.subrange(0, 4)), spec_i32(b.subrange(4, 8)))
}

/// Each interval as a list of its two values.
pub open spec fn interval_lists(pairs: Seq<(i32, i32)>) -> Seq<Seq<i32>> {
    pairs.map_values(|p: (i32, i32)| seq![p.0, p.1])
}

pub(crate) fn parse_u64(bytes: &[u8]) -> (r: u64)
    requires
        bytes@.len() == 8,
    ensures
        r == spec_u64(bytes@),
{
    crate::bytes::read_u64_le(bytes, 0)
}

pub(crate) fn parse_foreignrow(bytes: &[u8]) -> (r: u64)
    requires
        bytes@.len() == 16,
    ensures
        r == spec_foreignrow(bytes@),
{
    crate::bytes::read_u64_le(bytes, 0)
}

pub(crate) fn parse_u32(bytes: &[u8]) -> (r: u32)
    requires
        bytes@.len() == 4,
    ensures
        r == spec_u32(bytes@),
        r as int == le_value(bytes@, 0, 4),
{
    let v = read_le(bytes, 0, 4);
    proof {
        reveal_with_fuel(crate::bytes::pow256, 5);
    }
    v as u32
}

fn parse_f32_bits(bytes: &[u8]) -> (r: u32)
    requires
        bytes@.len() == 4,
    ensures
        r == spec_u32(bytes@),
{
    parse_u32(bytes)
}

pub(crate) fn parse_i32(bytes: &[u8]) -> (r: i32)
    requires
        bytes@.len() == 4,
    ensures
        r == spec_i32(bytes@),
{
    let v = parse_u32(bytes);
    if v >= 0x8000_0000 {
        ((v as i64) - 0x1_0000_0000) as i32
    } else {
        v as i32
    }
}

pub(crate) fn parse_u16(bytes: &[u8]) -> (r: u16)
    requires
        bytes@.len() == 2,
    ensures
        r == spec_u16(bytes@),
        r as int == le_value(bytes@, 0, 2),
{
    let v = read_le(bytes, 0, 2);
    proof {
        reveal_with_fuel(crate::bytes::pow256, 3);
    }
    v as u16
}

pub(crate) fn parse_i16(bytes: &[u8]) -> (r: i16)
    requires
        bytes@.len() == 2,
    ensures
        r == spec_i16(bytes@),
{
    let v = parse_u16(bytes);
    if v >= 0x8000 {
        ((v as i32) - 0x1_0000) as i16
    } else {
        v as i16
    }
}

/// Whether all the bytes are 0xfe, the marker of a null row index.
pub(crate) fn all_fe(bytes: &[u8]) -> (r: bool)
    ensures
        r == (bytes@ == Seq::new(bytes@.len(), |_i: int| 0xfeu8)),
{
    let mut i: usize = 0;
    while i < bytes.len()
        invariant
            i <= bytes@.len(),
            forall|j: int| 0 <= j < i ==> bytes@[j] == 0xfe,
        decreases bytes@.len() - i,
    {
        if bytes[i] != 0xfe {
            return false;
        }
        i = i + 1;
    }
    assert(bytes@ =~= Seq::new(bytes@.len(), |_i: int| 0xfeu8));
    true
}

fn parse_maybe_foreignrow(bytes: &[u8]) -> (r: Option<u64>)
    requires
        bytes@.len() == 16,
    ensures
        r == spec_maybe_foreignrow(bytes@),
{
    if all_fe(bytes) {
        None
    } else {
        Some(parse_foreignrow(bytes))
    }
}

fn parse_maybe_row(bytes: &[u8]) -> (r: Option<u64>)
    requires
        bytes@.len() == 8,
    ensures
        r == spec_maybe_row(bytes@),
{
    if all_fe(bytes) {
        None
    } else {
        Some(parse_u64(bytes))
    }
}

fn parse_bool(bytes: &[u8]) -> (r: Result<bool, ColumnError>)
    requires
        bytes@.len() == 1,
    ensures
        r == spec_bool(bytes@),
{
    if bytes[0] < 2 {
        Ok(bytes[0] == 1)
    } else {
        Err(ColumnError::InvalidBool(bytes[0]))
    }
}

/// Reads each item of a row's array with `g`, keeping a row's error.
pub open spec fn read_items<T>(g: spec_fn(Seq<u8>) -> T) -> spec_fn(Result<Seq<Seq<u8>>, DatError>) -> Result<Seq<T>, DatError> {
    |r: Result<Seq<Seq<u8>>, DatError>|
        match r {
            Ok(items) => Ok(items.map_values(g)),
            Err(e) => Err(e),
        }
}

/// Per row, the array cell's items read by `g`; the first failing row fails the column.
pub open spec fn arrays_of<T>(
    rows: Seq<Seq<u8>>,
    vd: Seq<u8>,
    offset: int,
    dtype_width: nat,
    g: spec_fn(Seq<u8>) -> T,
) -> Result<Result<Seq<Seq<T>>, DatError>, DatError> {
    match spec_col_arrays(rows, vd, offset, dtype_width) {
        Err(e) => Err(e),
        Ok(per_row) => Ok(collect_results(per_row.map_values(read_items(g)))),
    }
}

/// Per row, the cell at `offset` read by `g`.
pub open spec fn scalars_of<T>(rows: Seq<Seq<u8>>, offset: int, width: int, g: spec_fn(Seq<u8>) -> T) -> Result<Seq<T>, DatError> {
    match spec_view_col(rows, offset, width) {
        Ok(cells) => Ok(cells.map_values(g)),
        Err(e) => Err(e),
    }
}

/// An array column: failing to locate the column fails the whole read; a failing row fails the
/// column's values only.
pub open spec fn lift_arrays<T>(
    x: Result<Result<Seq<Seq<T>>, DatError>, DatError>,
    make: spec_fn(Seq<Seq<T>>) -> ColumnDataModel,
) -> Result<(nat, Result<ColumnDataModel, ColumnError>), ColumnError> {
    match x {
        Err(e) => Err(ColumnError::Dat(e)),
        Ok(Err(e)) => Ok((16, Err(ColumnError::Dat(e)))),
        Ok(Ok(v)) => Ok((16, Ok(make(v)))),
    }
}

/// A scalar column of `width` bytes per row; failures fail the column's values only.
pub open spec fn lift_scalars<T>(
    x: Result<Seq<T>, DatError>,
    make: spec_fn(Seq<T>) -> ColumnDataModel,
    width: nat,
) -> Result<(nat, Result<ColumnDataModel, ColumnError>), ColumnError> {
    match x {
        Err(e) => Ok((width, Err(ColumnError::Dat(e)))),
        Ok(v) => Ok((width, Ok(make(v)))),
    }
}

/// An array column (`array` set, `interval` not).
pub open spec fn spec_array_column(
    rows: Seq<Seq<u8>>,
    vd: Seq<u8>,
    ty: Seq<char>,
    offset: int,
) -> Result<(nat, Result<ColumnDataModel, ColumnError>), ColumnError> {
    if ty == "array"@ {
        Ok((16, Err(ColumnError::UnknownArrayType)))
    } else if ty == "string"@ {
        match spec_col_string_arrays(rows, vd, offset) {
            Err(e) => Err(ColumnError::Dat(e)),
            Ok(per_row) => Ok(
                (
                    16,
                    match collect_results(per_row) {
                        Ok(v) => Ok(ColumnDataModel::StringArrays(v)),
                        Err(e) => Err(ColumnError::Dat(e)),
                    },
                ),
            ),
        }
    } else if ty == "foreignrow"@ {
        lift_arrays(
            arrays_of(rows, vd, offset, 16, foreignrow_reader()),
            |v: Seq<Seq<u64>>| ColumnDataModel::ForeignRowArrays(v),
        )
    } else if ty == "row"@ {
        lift_arrays(
            arrays_of(rows, vd, offset, 8, maybe_row_reader()),
            |v: Seq<Seq<Option<u64>>>| ColumnDataModel::RowArrays(v),
        )
    } else if ty == "enumrow"@ || ty == "u32"@ {
        lift_arrays(
            arrays_of(rows, vd, offset, 4, u32_reader()),
            |v: Seq<Seq<u32>>| ColumnDataModel::U32Arrays(v),
        )
    } else if ty == "f32"@ {
        lift_arrays(
            arrays_of(rows, vd, offset, 4, u32_reader()),
            |v: Seq<Seq<u32>>| ColumnDataModel::F32Arrays(v),
        )
    } else if ty == "i32"@ {
        lift_arrays(
            arrays_of(rows, vd, offset, 4, i32_reader()),
            |v: Seq<Seq<i32>>| ColumnDataModel::I32Arrays(v),
        )
    } else if ty == "i16"@ {
        lift_arrays(
            arrays_of(rows, vd, offset, 2, i16_reader()),
            |v: Seq<Seq<i16>>| ColumnDataModel::I16Arrays(v),
        )
    } else if ty == "u16"@ {
        lift_arrays(
            arrays_of(rows, vd, offset, 2, u16_reader()),
            |v: Seq<Seq<u16>>| ColumnDataModel::U16Arrays(v),
        )
    } else {
        Err(ColumnError::UnknownColumnType)
    }
}

/// An interval column (`interval` set, `array` not); only `i32` intervals are known.
pub open spec fn spec_interval_column(rows: Seq<Seq<u8>>, ty: Seq<char>, offset: int) -> Result<
    (nat, Result<ColumnDataModel, ColumnError>),
    ColumnError,
> {
    if ty == "i32"@ {
        match scalars_of(rows, offset, 8, interval_reader()) {
            Err(e) => Ok((8, Err(ColumnError::Dat(e)))),
            Ok(v) => Ok((8, Ok(ColumnDataModel::I32Arrays(interval_lists(v))))),
        }
    } else {
        Err(ColumnError::UnknownColumnType)
    }
}

/// A scalar column (neither `array` nor `interval`).
pub open spec fn spec_scalar_column(
    rows: Seq<Seq<u8>>,
    vd: Seq<u8>,
    ty: Seq<char>,
    offset: int,
) -> Result<(nat, Result<ColumnDataModel, ColumnError>), ColumnError> {
    if ty == "string"@ {
        Ok(
            (
                8,
                match spec_col_strings(rows, vd, offset) {
                    Err(e) => Err(ColumnError::Dat(e)),
                    Ok(per_row) => match collect_results(per_row) {
                        Ok(v) => Ok(ColumnDataModel::Strings(v)),
                        Err(e) => Err(ColumnError::Dat(e)),
                    },
                },
            ),
        )
    } else if ty == "foreignrow"@ {
        lift_scalars(
            scalars_of(rows, offset, 16, maybe_foreignrow_reader()),
            |v: Seq<Option<u64>>| ColumnDataModel::OptU64s(v),
            16,
        )
    } else if ty == "row"@ {
        lift_scalars(
            scalars_of(rows, offset, 8, maybe_row_reader()),
            |v: Seq<Option<u64>>| ColumnDataModel::OptU64s(v),
            8,
        )
    } else if ty == "enumrow"@ || ty == "u32"@ {
        lift_scalars(
            scalars_of(rows, offset, 4, u32_reader()),
            |v: Seq<u32>| ColumnDataModel::U32s(v),
            4,
        )
    } else if ty == "f32"@ {
        lift_scalars(
            scalars_of(rows, offset, 4, u32_reader()),
            |v: Seq<u32>| ColumnDataModel::F32s(v),
            4,
        )
    } else if ty == "i32"@ {
        lift_scalars(
            scalars_of(rows, offset, 4, i32_reader()),
            |v: Seq<i32>| ColumnDataModel::I32s(v),
            4,
        )
    } else if ty == "i16"@ {
        lift_scalars(
            scalars_of(rows, offset, 2, i16_reader()),
            |v: Seq<i16>| ColumnDataModel::I16s(v),
            2,
        )
    } else if ty == "u16"@ {
        lift_scalars(
            scalars_of(rows, offset, 2, u16_reader()),
            |v: Seq<u16>| ColumnDataModel::U16s(v),
            2,
        )
    } else if ty == "bool"@ {
        Ok(
            (
                1,
                match scalars_of(rows, offset, 1, bool_reader()) {
                    Err(e) => Err(ColumnError::Dat(e)),
                    Ok(cells) => match collect_results(cells) {
                        Ok(v) => Ok(ColumnDataModel::Bools(v)),
                        Err(e) => Err(e),
                    },
                },
            ),
        )
    } else {
        Err(ColumnError::UnknownColumnType)
    }
}

/// Reading one column at `offset`: the number of bytes the column takes in a row, and its
/// values or why they could not be read; or a failure that stops reading the table.
pub open spec fn spec_parse_column(
    rows: Seq<Seq<u8>>,
    vd: Seq<u8>,
    column: ColumnSchema,
    offset: int,
) -> Result<(nat, Result<ColumnDataModel, ColumnError>), ColumnError> {
    let ty = column.column_type@;
    if column.array && !column.interval {
        spec_array_column(rows, vd, ty, offset)
    } else if !column.array && column.interval {
        spec_interval_column(rows, ty, offset)
    } else if !column.array && !column.interval {
        spec_scalar_column(rows, vd, ty, offset)
    } else {
        Err(ColumnError::ArrayAndInterval)
    }
}

/// Whether the strings that reading a column decodes are valid UTF-16 (decoding invalid UTF-16
/// panics); reading stops at the first string that fails.
pub open spec fn column_readable(table: DatFile, column: ColumnSchema, offset: int) -> bool {
    &&& (column.column_type@ == "string"@ && !column.array && !column.interval)
        ==> strings_collect_readable(table.spec_rows(), table.variable_data@, offset)
    &&& (column.column_type@ == "string"@ && column.array && !column.interval)
        ==> string_arrays_collect_readable(table.spec_rows(), table.variable_data@, offset)
}

/// Whether reading a column at `offset` decodes only valid UTF-16, as [`column_readable`] says.
pub fn column_is_readable(table: &DatFile, column: &ColumnSchema, offset: usize) -> (r: bool)
    requires
        table.wide_rows(),
        offset + 16 <= usize::MAX,
    ensures
        r == column_readable(*table, *column, offset as int),
{
    if !str_eq(column.column_type.as_str(), "string") || column.interval {
        return true;
    }
    if column.array {
        table.string_arrays_collect_is_readable(offset)
    } else {
        table.strings_collect_is_readable(offset)
    }
}

/// A copy of a vector of plain values.
fn copy_vec<T: Copy>(v: &Vec<T>) -> (r: Vec<T>)
    ensures
        r@ == v@,
{
    let mut out: Vec<T> = Vec::new();
    let mut i: usize = 0;
    while i < v.len()
        invariant
            i <= v@.len(),
            out@ == v@.take(i as int),
        decreases v@.len() - i,
    {
        out.push(v[i]);
        i = i + 1;
        assert(out@ =~= v@.take(i as int));
    }
    assert(v@.take(v@.len() as int) =~= v@);
    out
}

/// Reads every row's array at `offset` with `f`, which computes `g`; the first failing row
/// fails the values.
fn column_arrays<T: Copy, F: Fn(&[u8]) -> T>(
    table: &DatFile,
    offset: usize,
    dtype_width: usize,
    f: F,
    Ghost(g): Ghost<spec_fn(Seq<u8>) -> T>,
) -> (r: Result<Result<Vec<Vec<T>>, DatError>, DatError>)
    requires
        offset + 16 <= usize::MAX,
        table.wide_rows(),
        dtype_width > 0,
        forall|b: &[u8]| b@.len() == dtype_width ==> call_requires(f, (b,)),
        forall|b: &[u8], t: T| call_ensures(f, (b,), t) ==> t == g(b@),
    ensures
        match arrays_of(table.spec_rows(), table.variable_data@, offset as int, dtype_width as nat, g) {
            Err(e) => r == Err::<Result<Vec<Vec<T>>, DatError>, DatError>(e),
            Ok(Err(e)) => r == Ok::<Result<Vec<Vec<T>>, DatError>, DatError>(Err(e)),
            Ok(Ok(v)) => r matches Ok(Ok(w)) && lists_view(w@) == v,
        },
{
    proof {
        table.lemma_wide_rows_readable(offset as int, 16);
    }
    let per_row = match table.view_col_as_array_of(offset, dtype_width, f) {
        Ok(p) => p,
        Err(e) => {
            return Err(e);
        },
    };
    let ghost expected = match spec_col_arrays(
        table.spec_rows(),
        table.variable_data@,
        offset as int,
        dtype_width as nat,
    ) {
        Ok(e) => e,
        Err(_) => Seq::empty(),
    };
    let ghost mapped = expected.map_values(read_items(g));
    assert(spec_col_arrays(
        table.spec_rows(),
        table.variable_data@,
        offset as int,
        dtype_width as nat,
    ) == Ok::<Seq<Result<Seq<Seq<u8>>, DatError>>, DatError>(expected));
    let mut out: Vec<Vec<T>> = Vec::new();
    let mut i: usize = 0;
    assert(mapped.take(0) =~= Seq::<Result<Seq<T>, DatError>>::empty());
    assert(lists_view(out@) =~= Seq::<Seq<T>>::empty());
    while i < per_row.len()
        invariant
            i <= per_row@.len(),
            per_row@.len() == expected.len(),
            mapped.len() == expected.len(),
            mapped == expected.map_values(read_items(g)),
            spec_col_arrays(
                table.spec_rows(),
                table.variable_data@,
                offset as int,
                dtype_width as nat,
            ) == Ok::<Seq<Result<Seq<Seq<u8>>, DatError>>, DatError>(expected),
            forall|b: &[u8], t: T| call_ensures(f, (b,), t) ==> t == g(b@),
            forall|j: int| 0 <= j < per_row@.len() ==> parsed_row(#[trigger] per_row@[j], expected[j], f),
            collect_results(mapped.take(i as int)) == Ok::<Seq<Seq<T>>, DatError>(lists_view(out@)),
        decreases per_row@.len() - i,
    {
        assert(mapped.take(i + 1).drop_last() =~= mapped.take(i as int));
        assert(parsed_row(per_row@[i as int], expected[i as int], f));
        match &per_row[i] {
            Ok(vals) => {
                let ghost items = expected[i as int]->Ok_0;
                assert(expected[i as int] == Ok::<Seq<Seq<u8>>, DatError>(items));
                assert forall|k: int| 0 <= k < items.len() implies vals@[k] == g(items[k]) by {
                    assert(produced_by(f, items[k], vals@[k]));
                    let b = choose|b: &[u8]| b@ == items[k] && call_ensures(f, (b,), vals@[k]);
                }
                assert(vals@ =~= items.map_values(g));
                let ghost before = out@;
                out.push(copy_vec(vals));
                assert(lists_view(out@) =~= lists_view(before).push(vals@));
                i = i + 1;
            },
            Err(e) => {
                proof {
                    assert(expected[i as int] == Err::<Seq<Seq<u8>>, DatError>(*e));
                    assert(mapped[i as int] == Err::<Seq<T>, DatError>(*e));
                    assert(mapped.take(i + 1).last() == mapped[i as int]);
                    assert(collect_results(mapped.take(i + 1)) == Err::<Seq<Seq<T>>, DatError>(*e));
                    lemma_collect_stuck(mapped, i + 1, mapped.len() as int);
                    assert(mapped.take(mapped.len() as int) =~= mapped);
                    assert(collect_results(mapped) == Err::<Seq<Seq<T>>, DatError>(*e));
                    assert(spec_col_arrays(
                        table.spec_rows(),
                        table.variable_data@,
                        offset as int,
                        dtype_width as nat,
                    ) == Ok::<Seq<Result<Seq<Seq<u8>>, DatError>>, DatError>(expected));
                }
                return Ok(Err(*e));
            },
        }
    }
    assert(mapped.take(mapped.len() as int) =~= mapped);
    Ok(Ok(out))
}

/// Reads every row's cell at `offset` with `f`, which computes `g`.
fn column_scalars<T, F: Fn(&[u8]) -> T>(
    table: &DatFile,
    offset: usize,
    width: usize,
    f: F,
    Ghost(g): Ghost<spec_fn(Seq<u8>) -> T>,
) -> (r: Result<Vec<T>, DatError>)
    requires
        offset + width <= usize::MAX,
        table.wide_rows(),
        forall|b: &[u8]| b@.len() == width ==> call_requires(f, (b,)),
        forall|b: &[u8], t: T| call_ensures(f, (b,), t) ==> t == g(b@),
    ensures
        match scalars_of(table.spec_rows(), offset as int, width as int, g) {
            Ok(v) => r matches Ok(w) && w@ == v,
            Err(e) => r == Err::<Vec<T>, DatError>(e),
        },
{
    proof {
        table.lemma_wide_rows_readable(offset as int, width as int);
    }
    let cells = match table.view_col(offset, width) {
        Ok(c) => c,
        Err(e) => {
            return Err(e);
        },
    };
    let ghost cv = cells.deep_view();
    let mut out: Vec<T> = Vec::new();
    let mut i: usize = 0;
    assert forall|j: int| 0 <= j < cells@.len() implies (#[trigger] cells@[j])@.len() == width by {
        assert(cv[j] == cells@[j].deep_view());
    }
    assert(out@ =~= cv.take(0).map_values(g));
    while i < cells.len()
        invariant
            i <= cells@.len(),
            cv == cells.deep_view(),
            scalars_of(table.spec_rows(), offset as int, width as int, g) == Ok::<Seq<T>, DatError>(
                cv.map_values(g),
            ),
            forall|b: &[u8]| b@.len() == width ==> call_requires(f, (b,)),
            forall|b: &[u8], t: T| call_ensures(f, (b,), t) ==> t == g(b@),
            forall|j: int| 0 <= j < cells@.len() ==> (#[trigger] cells@[j])@.len() == width,
            out@ == cv.take(i as int).map_values(g),
        decreases cells@.len() - i,
    {
        let cell = cells[i];
        assert(cv[i as int] == cell.deep_view());
        assert(cell.deep_view() =~= cell@);
        let v = f(cell);
        let ghost before = out@;
        out.push(v);
        assert(out@ =~= cv.take(i + 1).map_values(g));
        i = i + 1;
    }
    assert(cv.take(cv.len() as int) =~= cv);
    Ok(out)
}

/// View of a column read.
pub open spec fn column_result_view(r: Result<(usize, Result<ColumnData, ColumnError>), ColumnError>) -> Result<
    (nat, Result<ColumnDataModel, ColumnError>),
    ColumnError,
> {
    match r {
        Err(e) => Err(e),
        Ok((n, Ok(d))) => Ok((n as nat, Ok(d.deep_view()))),
        Ok((n, Err(e))) => Ok((n as nat, Err(e))),
    }
}

/// A result with its value taken by its deep view.
pub open spec fn deep_result<T: DeepView, E>(x: Result<T, E>) -> Result<T::V, E> {
    match x {
        Ok(t) => Ok(t.deep_view()),
        Err(e) => Err(e),
    }
}

/// The results, each with its value taken by its deep view.
pub open spec fn deep_results<T: DeepView, E>(s: Seq<Result<T, E>>) -> Seq<Result<T::V, E>> {
    s.map_values(|x: Result<T, E>| deep_result(x))
}

/// Takes the values out of the results, in order, or the first error.
#[verifier::rlimit(40)]
#[verifier::spinoff_prover]
fn collect_owned<T: DeepView, E>(v: Vec<Result<T, E>>) -> (r: Result<Vec<T>, E>)
    ensures
        match collect_results(deep_results(v@)) {
            Ok(s) => r matches Ok(w) && w.deep_view() == s,
            Err(e) => r == Err::<Vec<T>, E>(e),
        },
{
    let ghost orig = v@;
    let ghost n = v@.len() as int;
    let ghost ds = deep_results(v@);
    let mut rest = v;
    let mut rev: Vec<Result<T, E>> = Vec::new();
    while rest.len() > 0
        invariant
            rest@.len() + rev@.len() == n,
            rest@ == orig.take(rest@.len() as int),
            orig.len() == n,
            forall|j: int| 0 <= j < rev@.len() ==> #[trigger] rev@[j] == orig[n - 1 - j],
        decreases rest@.len(),
    {
        let ghost before = rev@;
        match rest.pop() {
            Some(x) => {
                rev.push(x);
                assert(rev@[before.len() as int] == x);
            },
            None => {},
        }
    }
    let mut out: Vec<T> = Vec::new();
    assert(ds.take(0) =~= Seq::<Result<T::V, E>>::empty());
    assert(out.deep_view() =~= Seq::<T::V>::empty());
    while rev.len() > 0
        invariant
            rev@.len() <= n,
            orig.len() == n,
            ds == deep_results(orig),
            orig == v@,
            forall|j: int| 0 <= j < rev@.len() ==> #[trigger] rev@[j] == orig[n - 1 - j],
            collect_results(ds.take(n - rev@.len())) == Ok::<Seq<T::V>, E>(out.deep_view()),
        decreases rev@.len(),
    {
        let ghost k = n - rev@.len();
        assert(rev@[rev@.len() - 1] == orig[k]);
        assert(ds.take(k + 1).drop_last() =~= ds.take(k));
        assert(ds[k] == deep_result(orig[k]));
        match rev.pop() {
            Some(Ok(t)) => {
                let ghost before = out.deep_view();
                out.push(t);
                assert(out.deep_view() =~= before.push(t.deep_view()));
            },
            Some(Err(e)) => {
                proof {
                    assert(ds.take(k + 1).last() == ds[k]);
                    assert(collect_results(ds.take(k + 1)) == Err::<Seq<T::V>, E>(e));
                    lemma_collect_stuck(ds, k + 1, n);
                    assert(ds.take(n) =~= ds);
                }
                return Err(e);
            },
            None => {},
        }
    }
    assert(ds.take(n) =~= ds);
    Ok(out)
}

fn parse_interval_pair(bytes: &[u8]) -> (r: (i32, i32))
    requires
        bytes@.len() == 8,
    ensures
        r == interval_reader()(bytes@),
{
    let lo = parse_i32(&bytes[0..4]);
    let hi = parse_i32(&bytes[4..8]);
    (lo, hi)
}

/// Every row's interval cell at `offset`, as a list of its two values.
fn column_intervals(table: &DatFile, offset: usize) -> (r: Result<Vec<Vec<i32>>, DatError>)
    requires
        offset + 8 <= usize::MAX,
        table.wide_rows(),
    ensures
        match scalars_of(table.spec_rows(), offset as int, 8, interval_reader()) {
            Ok(v) => r matches Ok(w) && lists_view(w@) == interval_lists(v),
            Err(e) => r == Err::<Vec<Vec<i32>>, DatError>(e),
        },
{
    let pairs = match column_scalars(table, offset, 8, parse_interval_pair, Ghost(interval_reader())) {
        Ok(p) => p,
        Err(e) => {
            return Err(e);
        },
    };
    let mut out: Vec<Vec<i32>> = Vec::new();
    let mut i: usize = 0;
    assert(lists_view(out@) =~= interval_lists(pairs@.take(0)));
    while i < pairs.len()
        invariant
            i <= pairs@.len(),
            lists_view(out@) == interval_lists(pairs@.take(i as int)),
        decreases pairs@.len() - i,
    {
        let (lo, hi) = pairs[i];
        let mut item: Vec<i32> = Vec::new();
        item.push(lo);
        item.push(hi);
        let ghost before = out@;
        out.push(item);
        assert(item@ =~= seq![lo, hi]);
        assert(lists_view(out@) =~= lists_view(before).push(item@));
        i = i + 1;
        assert(interval_lists(pairs@.take(i as int)) =~= interval_lists(pairs@.take(i - 1)).push(
            seq![lo, hi],
        ));
    }
    assert(pairs@.take(pairs@.len() as int) =~= pairs@);
    Ok(out)
}

/// The string arrays that the cells name, in order, up to the first that fails.
fn collect_string_arrays(vd: &[u8], cells: &Vec<&[u8]>) -> (r: Result<Vec<Vec<Option<String>>>, DatError>)
    requires
        forall|j: int| 0 <= j < cells@.len() ==> (#[trigger] cells@[j])@.len() == 16,
        cell_string_arrays_readable(vd@, cells.deep_view(), 0),
    ensures
        match collect_results(
            Seq::new(cells@.len(), |j: int| spec_string_array_cell(vd@, cells.deep_view()[j])),
        ) {
            Ok(v) => r matches Ok(w) && w.deep_view() == v,
            Err(e) => r == Err::<Vec<Vec<Option<String>>>, DatError>(e),
        },
{
    let ghost cv = cells.deep_view();
    let ghost mapped = Seq::new(cells@.len(), |j: int| spec_string_array_cell(vd@, cv[j]));
    let mut out: Vec<Vec<Option<String>>> = Vec::new();
    let mut i: usize = 0;
    assert(mapped.take(0) =~= Seq::<Result<Seq<Option<Seq<char>>>, DatError>>::empty());
    assert(out.deep_view() =~= Seq::<Seq<Option<Seq<char>>>>::empty());
    while i < cells.len()
        invariant
            i <= cells@.len(),
            cv == cells.deep_view(),
            mapped == Seq::new(cells@.len(), |j: int| spec_string_array_cell(vd@, cv[j])),
            forall|j: int| 0 <= j < cells@.len() ==> (#[trigger] cells@[j])@.len() == 16,
            cell_string_arrays_readable(vd@, cv, i as int),
            collect_results(mapped.take(i as int)) == Ok::<Seq<Seq<Option<Seq<char>>>>, DatError>(
                out.deep_view(),
            ),
        decreases cells@.len() - i,
    {
        let cell = cells[i];
        assert(cv[i as int] == cell@);
        assert(mapped.take(i + 1).drop_last() =~= mapped.take(i as int));
        match string_array_cell(vd, cell) {
            Ok(v) => {
                let ghost before = out.deep_view();
                out.push(v);
                assert(out.deep_view() =~= before.push(v.deep_view()));
                i = i + 1;
            },
            Err(e) => {
                proof {
                    assert(mapped[i as int] == Err::<Seq<Option<Seq<char>>>, DatError>(e));
                    assert(mapped.take(i + 1).last() == mapped[i as int]);
                    assert(collect_results(mapped.take(i + 1)) == Err::<
                        Seq<Seq<Option<Seq<char>>>>,
                        DatError,
                    >(e));
                    lemma_collect_stuck(mapped, i + 1, mapped.len() as int);
                    assert(mapped.take(mapped.len() as int) =~= mapped);
                }
                return Err(e);
            },
        }
    }
    assert(mapped.take(mapped.len() as int) =~= mapped);
    Ok(out)
}

/// Reads an array column of strings at `offset`, stopping at the first row that fails.
#[verifier::rlimit(40)]
#[verifier::spinoff_prover]
fn parse_string_array_column(table: &DatFile, offset: usize) -> (r: Result<
    (usize, Result<ColumnData, ColumnError>),
    ColumnError,
>)
    requires
        offset + 16 <= usize::MAX,
        table.wide_rows(),
        string_arrays_collect_readable(table.spec_rows(), table.variable_data@, offset as int),
    ensures
        column_result_view(r) == spec_array_column(
            table.spec_rows(),
            table.variable_data@,
            "string"@,
            offset as int,
        ),
{
    proof {
        table.lemma_wide_rows_readable(offset as int, 16);
        reveal_strlit("string");
        reveal_strlit("array");
    }
    assert("string"@.len() == 6 && "array"@.len() == 5);
    assert("string"@ != "array"@);
    let cells = match table.view_col(offset, 16) {
        Ok(c) => c,
        Err(e) => {
            return Err(ColumnError::Dat(e));
        },
    };
    let ghost vd = table.variable_data@;
    let ghost cv = cells.deep_view();
    let ghost mapped = spec_col_string_arrays(table.spec_rows(), vd, offset as int)->Ok_0;
    assert forall|j: int| 0 <= j < cells@.len() implies (#[trigger] cells@[j])@.len() == 16 by {
        assert(cv[j] == cells@[j].deep_view());
        assert(cells@[j].deep_view() =~= cells@[j]@);
    }
    assert(mapped =~= Seq::new(cells@.len(), |j: int| spec_string_array_cell(vd, cv[j])));
    match collect_string_arrays(table.variable_data.as_slice(), &cells) {
        Ok(v) => Ok((16, Ok(ColumnData::StringArrays(v)))),
        Err(e) => Ok((16, Err(ColumnError::Dat(e)))),
    }
}

/// Reads a scalar column of strings at `offset`, stopping at the first pointer out of bounds.
#[verifier::rlimit(40)]
#[verifier::spinoff_prover]
fn parse_string_column(table: &DatFile, offset: usize) -> (r: Result<Vec<Option<String>>, DatError>)
    requires
        offset + 8 <= usize::MAX,
        table.wide_rows(),
        strings_collect_readable(table.spec_rows(), table.variable_data@, offset as int),
    ensures
        match spec_col_strings(table.spec_rows(), table.variable_data@, offset as int) {
            Err(e) => r == Err::<Vec<Option<String>>, DatError>(e),
            Ok(per_row) => match collect_results(per_row) {
                Ok(v) => r matches Ok(w) && w.deep_view() == v,
                Err(e) => r == Err::<Vec<Option<String>>, DatError>(e),
            },
        },
{
    proof {
        table.lemma_wide_rows_readable(offset as int, 8);
    }
    let cells = match table.view_col(offset, 8) {
        Ok(c) => c,
        Err(e) => {
            return Err(e);
        },
    };
    let ghost vd = table.variable_data@;
    let ghost cv = cells.deep_view();
    let ghost mapped = spec_col_strings(table.spec_rows(), vd, offset as int)->Ok_0;
    assert forall|j: int| 0 <= j < cells@.len() implies (#[trigger] cells@[j])@.len() == 8 by {
        assert(cv[j] == cells@[j].deep_view());
        assert(cells@[j].deep_view() =~= cells@[j]@);
    }
    let mut out: Vec<Option<String>> = Vec::new();
    let mut i: usize = 0;
    assert(mapped.take(0) =~= Seq::<Result<Option<Seq<char>>, DatError>>::empty());
    assert(out.deep_view() =~= Seq::<Option<Seq<char>>>::empty());
    while i < cells.len()
        invariant
            i <= cells@.len(),
            cv == cells.deep_view(),
            vd == table.variable_data@,
            mapped.len() == cv.len(),
            forall|j: int| 0 <= j < cv.len() ==> #[trigger] mapped[j] == spec_string_cell(vd, cv[j]),
            forall|j: int| 0 <= j < cells@.len() ==> (#[trigger] cells@[j])@.len() == 8,
            spec_col_strings(table.spec_rows(), vd, offset as int) == Ok::<
                Seq<Result<Option<Seq<char>>, DatError>>,
                DatError,
            >(mapped),
            cell_strings_readable(vd, cv, i as int),
            collect_results(mapped.take(i as int)) == Ok::<Seq<Option<Seq<char>>>, DatError>(
                out.deep_view(),
            ),
        decreases cells@.len() - i,
    {
        let cell = cells[i];
        assert(cv[i as int] == cell@);
        assert(mapped.take(i + 1).drop_last() =~= mapped.take(i as int));
        if !string_cell_in_bounds(table.variable_data.as_slice(), cell) {
            proof {
                assert(mapped[i as int] == Err::<Option<Seq<char>>, DatError>(
                    DatError::ArrayPointerOutOfBounds,
                ));
                assert(mapped.take(i + 1).last() == mapped[i as int]);
                lemma_collect_stuck(mapped, i + 1, mapped.len() as int);
                assert(mapped.take(mapped.len() as int) =~= mapped);
            }
            return Err(DatError::ArrayPointerOutOfBounds);
        }
        match string_cell(table.variable_data.as_slice(), cell) {
            Ok(v) => {
                let ghost before = out.deep_view();
                out.push(v);
                assert(out.deep_view() =~= before.push(v.deep_view()));
                i = i + 1;
            },
            Err(e) => {
                return Err(e);
            },
        }
    }
    assert(mapped.take(mapped.len() as int) =~= mapped);
    Ok(out)
}

/// Reads an array column of item type `ty` at `offset`.
#[verifier::rlimit(40)]
#[verifier::spinoff_prover]
fn parse_array_column(table: &DatFile, ty: &str, offset: usize) -> (r: Result<
    (usize, Result<ColumnData, ColumnError>),
    ColumnError,
>)
    requires
        offset + 16 <= usize::MAX,
        table.wide_rows(),
        ty@ == "string"@ ==> string_arrays_collect_readable(
            table.spec_rows(),
            table.variable_data@,
            offset as int,
        ),
    ensures
        column_result_view(r) == spec_array_column(
            table.spec_rows(),
            table.variable_data@,
            ty@,
            offset as int,
        ),
{
    proof {
        table.lemma_wide_rows_readable(offset as int, 16);
    }
    if str_eq(ty, "array") {
        Ok((16, Err(ColumnError::UnknownArrayType)))
    } else if str_eq(ty, "string") {
        parse_string_array_column(table, offset)
    } else if str_eq(ty, "foreignrow") {
        match column_arrays(table, offset, 16, parse_foreignrow, Ghost(foreignrow_reader())) {
            Err(e) => Err(ColumnError::Dat(e)),
            Ok(Err(e)) => Ok((16, Err(ColumnError::Dat(e)))),
            Ok(Ok(v)) => Ok((16, Ok(ColumnData::ForeignRowArrays(v)))),
        }
    } else if str_eq(ty, "row") {
        match column_arrays(table, offset, 8, parse_maybe_row, Ghost(maybe_row_reader())) {
            Err(e) => Err(ColumnError::Dat(e)),
            Ok(Err(e)) => Ok((16, Err(ColumnError::Dat(e)))),
            Ok(Ok(v)) => Ok((16, Ok(ColumnData::RowArrays(v)))),
        }
    } else if str_eq(ty, "enumrow") || str_eq(ty, "u32") {
        match column_arrays(table, offset, 4, parse_u32, Ghost(u32_reader())) {
            Err(e) => Err(ColumnError::Dat(e)),
            Ok(Err(e)) => Ok((16, Err(ColumnError::Dat(e)))),
            Ok(Ok(v)) => Ok((16, Ok(ColumnData::U32Arrays(v)))),
        }
    } else if str_eq(ty, "f32") {
        match column_arrays(table, offset, 4, parse_f32_bits, Ghost(u32_reader())) {
            Err(e) => Err(ColumnError::Dat(e)),
            Ok(Err(e)) => Ok((16, Err(ColumnError::Dat(e)))),
            Ok(Ok(v)) => Ok((16, Ok(ColumnData::F32Arrays(v)))),
        }
    } else if str_eq(ty, "i32") {
        match column_arrays(table, offset, 4, parse_i32, Ghost(i32_reader())) {
            Err(e) => Err(ColumnError::Dat(e)),
            Ok(Err(e)) => Ok((16, Err(ColumnError::Dat(e)))),
            Ok(Ok(v)) => Ok((16, Ok(ColumnData::I32Arrays(v)))),
        }
    } else if str_eq(ty, "i16") {
        match column_arrays(table, offset, 2, parse_i16, Ghost(i16_reader())) {
            Err(e) => Err(ColumnError::Dat(e)),
            Ok(Err(e)) => Ok((16, Err(ColumnError::Dat(e)))),
            Ok(Ok(v)) => Ok((16, Ok(ColumnData::I16Arrays(v)))),
        }
    } else if str_eq(ty, "u16") {
        match column_arrays(table, offset, 2, parse_u16, Ghost(u16_reader())) {
            Err(e) => Err(ColumnError::Dat(e)),
            Ok(Err(e)) => Ok((16, Err(ColumnError::Dat(e)))),
            Ok(Ok(v)) => Ok((16, Ok(ColumnData::U16Arrays(v)))),
        }
    } else {
        Err(ColumnError::UnknownColumnType)
    }
}

/// Reads an interval column of item type `ty` at `offset`.
fn parse_interval_column(table: &DatFile, ty: &str, offset: usize) -> (r: Result<
    (usize, Result<ColumnData, ColumnError>),
    ColumnError,
>)
    requires
        offset + 16 <= usize::MAX,
        table.wide_rows(),
    ensures
        column_result_view(r) == spec_interval_column(table.spec_rows(), ty@, offset as int),
{
    if str_eq(ty, "i32") {
        match column_intervals(table, offset) {
            Err(e) => Ok((8, Err(ColumnError::Dat(e)))),
            Ok(v) => Ok((8, Ok(ColumnData::I32Arrays(v)))),
        }
    } else {
        Err(ColumnError::UnknownColumnType)
    }
}

/// Reads a scalar column of type `ty` at `offset`.
#[verifier::rlimit(40)]
#[verifier::spinoff_prover]
fn parse_scalar_column(table: &DatFile, ty: &str, offset: usize) -> (r: Result<
    (usize, Result<ColumnData, ColumnError>),
    ColumnError,
>)
    requires
        offset + 16 <= usize::MAX,
        table.wide_rows(),
        ty@ == "string"@ ==> strings_collect_readable(
            table.spec_rows(),
            table.variable_data@,
            offset as int,
        ),
    ensures
        column_result_view(r) == spec_scalar_column(
            table.spec_rows(),
            table.variable_data@,
            ty@,
            offset as int,
        ),
{
    if str_eq(ty, "string") {
        match parse_string_column(table, offset) {
            Err(e) => Ok((8, Err(ColumnError::Dat(e)))),
            Ok(v) => Ok((8, Ok(ColumnData::Strings(v)))),
        }
    } else if str_eq(ty, "foreignrow") {
        match column_scalars(table, offset, 16, parse_maybe_foreignrow, Ghost(maybe_foreignrow_reader())) {
            Err(e) => Ok((16, Err(ColumnError::Dat(e)))),
            Ok(v) => Ok((16, Ok(ColumnData::OptU64s(v)))),
        }
    } else if str_eq(ty, "row") {
        match column_scalars(table, offset, 8, parse_maybe_row, Ghost(maybe_row_reader())) {
            Err(e) => Ok((8, Err(ColumnError::Dat(e)))),
            Ok(v) => Ok((8, Ok(ColumnData::OptU64s(v)))),
        }
    } else if str_eq(ty, "enumrow") || str_eq(ty, "u32") {
        match column_scalars(table, offset, 4, parse_u32, Ghost(u32_reader())) {
            Err(e) => Ok((4, Err(ColumnError::Dat(e)))),
            Ok(v) => Ok((4, Ok(ColumnData::U32s(v)))),
        }
    } else if str_eq(ty, "f32") {
        match column_scalars(table, offset, 4, parse_f32_bits, Ghost(u32_reader())) {
            Err(e) => Ok((4, Err(ColumnError::Dat(e)))),
            Ok(v) => Ok((4, Ok(ColumnData::F32s(v)))),
        }
    } else if str_eq(ty, "i32") {
        match column_scalars(table, offset, 4, parse_i32, Ghost(i32_reader())) {
            Err(e) => Ok((4, Err(ColumnError::Dat(e)))),
            Ok(v) => Ok((4, Ok(ColumnData::I32s(v)))),
        }
    } else if str_eq(ty, "i16") {
        match column_scalars(table, offset, 2, parse_i16, Ghost(i16_reader())) {
            Err(e) => Ok((2, Err(ColumnError::Dat(e)))),
            Ok(v) => Ok((2, Ok(ColumnData::I16s(v)))),
        }
    } else if str_eq(ty, "u16") {
        match column_scalars(table, offset, 2, parse_u16, Ghost(u16_reader())) {
            Err(e) => Ok((2, Err(ColumnError::Dat(e)))),
            Ok(v) => Ok((2, Ok(ColumnData::U16s(v)))),
        }
    } else if str_eq(ty, "bool") {
        match column_scalars(table, offset, 1, parse_bool, Ghost(bool_reader())) {
            Err(e) => Ok((1, Err(ColumnError::Dat(e)))),
            Ok(v) => {
                assert(deep_results(v@) =~= v@);
                match collect_owned(v) {
                    Ok(b) => {
                        assert(b.deep_view() =~= b@);
                        Ok((1, Ok(ColumnData::Bools(b))))
                    },
                    Err(e) => Ok((1, Err(e))),
                }
            },
        }
    } else {
        Err(ColumnError::UnknownColumnType)
    }
}

/// Apply a schema to a single column: the number of bytes the column takes in a row and its
/// values (or why they could not be read); an `Err` stops reading the table.
pub fn parse_column(table: &DatFile, column: &ColumnSchema, cur_offset: usize) -> (r: Result<
    (usize, Result<ColumnData, ColumnError>),
    ColumnError,
>)
    requires
        cur_offset + 16 <= usize::MAX,
        table.wide_rows(),
        column_readable(*table, *column, cur_offset as int),
    ensures
        column_result_view(r) == spec_parse_column(
            table.spec_rows(),
            table.variable_data@,
            *column,
            cur_offset as int,
        ),
{
    let ty = column.column_type.as_str();
    if column.array && !column.interval {
        parse_array_column(table, ty, cur_offset)
    } else if !column.array && column.interval {
        parse_interval_column(table, ty, cur_offset)
    } else if !column.array && !column.interval {
        parse_scalar_column(table, ty, cur_offset)
    } else {
        Err(ColumnError::ArrayAndInterval)
    }
}

/// The number of bytes a column of this schema takes in every row: 16 for an array (a length
/// and a pointer), 8 for an interval, and for a scalar the size of its type (a string is an
/// 8-byte pointer).
pub open spec fn column_width(column: ColumnSchema) -> nat {
    let ty = column.column_type@;
    if column.array {
        16
    } else if column.interval {
        8
    } else if ty == "string"@ || ty == "row"@ {
        8
    } else if ty == "foreignrow"@ {
        16
    } else if ty == "enumrow"@ || ty == "u32"@ || ty == "f32"@ || ty == "i32"@ {
        4
    } else if ty == "i16"@ || ty == "u16"@ {
        2
    } else {
        1
    }
}

/// Where a column can be read at all, the bytes it takes depend on its schema alone, not on the
/// table's contents, so the offsets of the following columns do too.
pub proof fn lemma_column_width(rows: Seq<Seq<u8>>, vd: Seq<u8>, column: ColumnSchema, offset: int)
    ensures
        spec_parse_column(rows, vd, column, offset) matches Ok((taken, _)) ==> taken == column_width(
            column,
        ),
{
    reveal_strlit("string");
    reveal_strlit("row");
    reveal_strlit("foreignrow");
    reveal_strlit("enumrow");
    reveal_strlit("u32");
    reveal_strlit("f32");
    reveal_strlit("i32");
    reveal_strlit("i16");
    reveal_strlit("u16");
    reveal_strlit("bool");
    reveal_strlit("array");
    let ty = column.column_type@;
    assert("string"@.len() == 6 && "row"@.len() == 3 && "foreignrow"@.len() == 10);
    assert("enumrow"@.len() == 7 && "u32"@.len() == 3 && "f32"@.len() == 3 && "i32"@.len() == 3);
    assert("i16"@.len() == 3 && "u16"@.len() == 3 && "bool"@.len() == 4 && "array"@.len() == 5);
    assert("row"@[0] != "u32"@[0] && "row"@[0] != "f32"@[0] && "row"@[0] != "i32"@[0]);
    assert("row"@[0] != "i16"@[0] && "row"@[0] != "u16"@[0]);
    assert("u32"@[0] != "f32"@[0] && "u32"@[0] != "i32"@[0] && "f32"@[0] != "i32"@[0]);
    assert("u32"@[1] != "u16"@[1] && "i32"@[1] != "i16"@[1] && "f32"@[0] != "i16"@[0]);
    assert("u32"@[0] != "i16"@[0] && "f32"@[0] != "u16"@[0] && "i32"@[0] != "u16"@[0]);
    assert("i16"@[0] != "u16"@[0]);
}

} // verus!
