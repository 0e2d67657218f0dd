use vstd::prelude::*;
use crate::bytes::{le_value, read_le, read_u64_le};
use crate::utf16::{spec_utf16_cstr, take_utf16_string};

verus! {

/// A data table: rows of fixed-width bytes, and the variable data section that rows point into
/// (pointers count from 8 bytes before the section's start).
pub struct DatFile {
    pub rows: Vec<Vec<u8>>,
    pub variable_data: Vec<u8>,
}

/// Why a column of a data table could not be read.
#[derive(Debug, Clone, Copy, PartialEq, Eq, Structural)]
pub enum DatError {
    /// The requested column extends past the width of a row
    ColumnOutOfBounds,
    /// An array pointer is below 8
    Underflow,
    /// An array's byte extent does not fit in a `usize`
    Overflow,
    /// An array extends past the end of the variable data section
    ArraySliceOverflow,
    /// A string pointer is outside the variable data section
    ArrayPointerOutOfBounds,
    /// A string pointer inside an array is below 8
    StringPointerUnderflow,
    /// A string pointer inside an array is past the end of the variable data section
    StringPointerOverflow,
}

/// The rows' bytes as sequences.
pub open spec fn rows_view(rows: Seq<Vec<u8>>) -> Seq<Seq<u8>> {
    Seq::new(rows.len(), |i: int| rows[i]@)
}

/// Width of a table whose rows are `rows`: the length of the first row, 0 without rows.
pub open spec fn spec_width(rows: Seq<Seq<u8>>) -> nat {
    if rows.len() == 0 {
        0
    } else {
        rows[0].len()
    }
}

/// Whether every row is at least `n` bytes long.
pub open spec fn rows_at_least(rows: Seq<Seq<u8>>, n: int) -> bool {
    forall|i: int| 0 <= i < rows.len() ==> n <= #[trigger] rows[i].len()
}

/// The bytes `offset..offset + width` of every row, or an error where the first row is too
/// narrow.
pub open spec fn spec_view_col(rows: Seq<Seq<u8>>, offset: int, width: int) -> Result<
    Seq<Seq<u8>>,
    DatError,
> {
    if offset + width <= spec_width(rows) {
        Ok(Seq::new(rows.len(), |i: int| rows[i].subrange(offset, offset + width)))
    } else {
        Err(DatError::ColumnOutOfBounds)
    }
}

/// The array that a 16-byte cell (a `u64` length and a `u64` pointer) names: `length` items of
/// `dtype_width` bytes each, starting at `pointer - 8` in the variable data section. Both are
/// taken as `usize`, as the platform's `u64 as usize` gives them.
pub open spec fn spec_array_cell(vd: Seq<u8>, cell: Seq<u8>, dtype_width: nat) -> Result<
    Seq<Seq<u8>>,
    DatError,
> {
    let length = ((le_value(cell, 0, 8) as u64) as usize) as nat;
    let pointer = ((le_value(cell, 8, 8) as u64) as usize) as nat;
    if pointer < 8 {
        Err(DatError::Underflow)
    } else if length * dtype_width > usize::MAX || (pointer - 8) + length * dtype_width
        > usize::MAX {
        Err(DatError::Overflow)
    } else if (pointer - 8) + length * dtype_width > vd.len() {
        Err(DatError::ArraySliceOverflow)
    } else {
        let start = pointer - 8;
        Ok(
            Seq::new(
                length,
                |k: int| vd.subrange(start + k * dtype_width, start + (k + 1) * dtype_width),
            ),
        )
    }
}

/// The string that an 8-byte pointer cell names: the null-terminated UTF-16LE string at
/// `pointer - 8`; empty strings are absent.
pub open spec fn spec_string_cell(vd: Seq<u8>, cell: Seq<u8>) -> Result<
    Option<Seq<char>>,
    DatError,
> {
    let pointer = ((le_value(cell, 0, 8) as u64) as usize) as nat;
    if pointer >= 8 && pointer < vd.len() + 8 {
        let s = spec_utf16_cstr(vd.subrange(pointer - 8, vd.len() as int)).unwrap();
        if s.len() == 0 {
            Ok(None)
        } else {
            Ok(Some(s))
        }
    } else {
        Err(DatError::ArrayPointerOutOfBounds)
    }
}

/// Whether the string that a pointer cell names, if in bounds, is valid UTF-16 (reading it
/// panics otherwise).
pub open spec fn string_cell_readable(vd: Seq<u8>, cell: Seq<u8>) -> bool {
    let pointer = ((le_value(cell, 0, 8) as u64) as usize) as nat;
    pointer >= 8 && pointer < vd.len() + 8 ==> spec_utf16_cstr(
        vd.subrange(pointer - 8, vd.len() as int),
    ) is Some
}

/// View of a per-row result of byte arrays.
pub open spec fn array_result_view(r: Result<Vec<&[u8]>, DatError>) -> Result<
    Seq<Seq<u8>>,
    DatError,
> {
    match r {
        Ok(v) => Ok(v.deep_view()),
        Err(e) => Err(e),
    }
}

/// View of a per-row result of an optional string.
pub open spec fn string_result_view(r: Result<Option<String>, DatError>) -> Result<
    Option<Seq<char>>,
    DatError,
> {
    match r {
        Ok(v) => Ok(v.deep_view()),
        Err(e) => Err(e),
    }
}

/// View of a per-row result of an array of optional strings.
pub open spec fn strings_result_view(r: Result<Vec<Option<String>>, DatError>) -> Result<
    Seq<Option<Seq<char>>>,
    DatError,
> {
    match r {
        Ok(v) => Ok(v.deep_view()),
        Err(e) => Err(e),
    }
}

/// A string inside an array: an 8-byte pointer, checked below and above on its own.
pub open spec fn spec_array_string(vd: Seq<u8>, cell: Seq<u8>) -> Result<
    Option<Seq<char>>,
    DatError,
> {
    let pointer = ((le_value(cell, 0, 8) as u64) as usize) as nat;
    if pointer < 8 {
        Err(DatError::StringPointerUnderflow)
    } else if pointer - 8 >= vd.len() {
        Err(DatError::StringPointerOverflow)
    } else {
        let s = spec_utf16_cstr(vd.subrange(pointer - 8, vd.len() as int)).unwrap();
        if s.len() == 0 {
            Ok(None)
        } else {
            Ok(Some(s))
        }
    }
}

/// All the values, or the first error among the results.
pub open spec fn collect_results<T, E>(s: Seq<Result<T, E>>) -> Result<Seq<T>, E>
    decreases s.len(),
{
    if s.len() == 0 {
        Ok(Seq::empty())
    } else {
        match collect_results(s.drop_last()) {
            Err(e) => Err(e),
            Ok(v) => match s.last() {
                Ok(x) => Ok(v.push(x)),
                Err(e) => Err(e),
            },
        }
    }
}

/// The strings that an array cell of string pointers names.
pub open spec fn spec_string_array_cell(vd: Seq<u8>, cell: Seq<u8>) -> Result<
    Seq<Option<Seq<char>>>,
    DatError,
> {
    match spec_array_cell(vd, cell, 8) {
        Err(e) => Err(e),
        Ok(items) => collect_results(items.map_values(|x: Seq<u8>| spec_array_string(vd, x))),
    }
}

/// Whether the strings of an array, from item `k` up to the first pointer out of bounds, are
/// valid UTF-16: reading stops at that pointer, so the strings after it are never decoded.
pub open spec fn array_strings_readable(vd: Seq<u8>, items: Seq<Seq<u8>>, k: int) -> bool
    decreases items.len() - k,
{
    if k < 0 || k >= items.len() {
        true
    } else if spec_array_string(vd, items[k]) is Err {
        true
    } else {
        string_cell_readable(vd, items[k]) && array_strings_readable(vd, items, k + 1)
    }
}

/// Whether the strings that reading an array cell of string pointers decodes are valid UTF-16
/// (decoding invalid UTF-16 panics).
pub open spec fn string_array_cell_readable(vd: Seq<u8>, cell: Seq<u8>) -> bool {
    match spec_array_cell(vd, cell, 8) {
        Err(_) => true,
        Ok(items) => array_strings_readable(vd, items, 0),
    }
}

/// Once a prefix holds an error, longer prefixes hold the same one.
pub proof fn lemma_collect_stuck<T, E>(s: Seq<Result<T, E>>, i: int, j: int)
    requires
        0 <= i <= j <= s.len(),
        collect_results(s.take(i)) is Err,
    ensures
        collect_results(s.take(j)) == collect_results(s.take(i)),
    decreases j - i,
{
    if i < j {
        lemma_collect_stuck(s, i, j - 1);
        assert(s.take(j).drop_last() =~= s.take(j - 1));
    }
}

/// Reads the array that a 16-byte cell names.
pub(crate) fn array_cell<'a>(vd: &'a [u8], cell: &[u8], dtype_width: usize) -> (r: Result<
    Vec<&'a [u8]>,
    DatError,
>)
    requires
        cell@.len() == 16,
        dtype_width > 0,
    ensures
        array_result_view(r) == spec_array_cell(vd@, cell@, dtype_width as nat),
{
    let length = read_u64_le(cell, 0) as usize;
    let pointer = read_u64_le(cell, 8) as usize;
    let start = match pointer.checked_sub(8) {
        Some(s) => s,
        None => {
            return Err(DatError::Underflow);
        },
    };
    let bytes = match length.checked_mul(dtype_width) {
        Some(b) => b,
        None => {
            return Err(DatError::Overflow);
        },
    };
    let end = match start.checked_add(bytes) {
        Some(e) => e,
        None => {
            return Err(DatError::Overflow);
        },
    };
    if end > vd.len() {
        return Err(DatError::ArraySliceOverflow);
    }
    let ghost items = Seq::new(
        length as nat,
        |k: int| vd@.subrange(start + k * dtype_width, start + (k + 1) * dtype_width),
    );
    let mut out: Vec<&'a [u8]> = Vec::new();
    let mut k: usize = 0;
    assert(out.deep_view() =~= items.take(0));
    while k < length
        invariant
            k <= length,
            start + length * dtype_width == end,
            end <= vd@.len(),
            vd@.len() == vd.len(),
            dtype_width > 0,
            items == Seq::new(
                length as nat,
                |k: int| vd@.subrange(start + k * dtype_width, start + (k + 1) * dtype_width),
            ),
            out.deep_view() == items.take(k as int),
        decreases length - k,
    {
        assert((k as nat) * (dtype_width as nat) + dtype_width == (k as nat + 1) * (
        dtype_width as nat)) by (nonlinear_arith);
        assert((k as nat + 1) * (dtype_width as nat) <= (length as nat) * (dtype_width as nat))
            by (nonlinear_arith)
            requires
                k < length,
        ;
        let lo = start + k * dtype_width;
        let hi = lo + dtype_width;
        let chunk = &vd[lo..hi];
        let ghost before = out.deep_view();
        out.push(chunk);
        assert(chunk.deep_view() =~= chunk@);
        assert(out.deep_view() =~= before.push(chunk@));
        k = k + 1;
        assert(out.deep_view() =~= items.take(k as int));
    }
    assert(items.take(length as int) =~= items);
    Ok(out)
}

/// Reads the string that an 8-byte pointer cell names.
pub(crate) fn string_cell(vd: &[u8], cell: &[u8]) -> (r: Result<Option<String>, DatError>)
    requires
        cell@.len() == 8,
        string_cell_readable(vd@, cell@),
    ensures
        string_result_view(r) == spec_string_cell(vd@, cell@),
{
    let pointer = read_u64_le(cell, 0) as usize;
    if pointer >= 8 && pointer - 8 < vd.len() {
        let s = take_utf16_string(&vd[pointer - 8..vd.len()]);
        if s.as_str().is_empty() {
            Ok(None)
        } else {
            Ok(Some(s))
        }
    } else {
        Err(DatError::ArrayPointerOutOfBounds)
    }
}

/// Reads a string pointer inside an array.
fn array_string(vd: &[u8], cell: &[u8]) -> (r: Result<Option<String>, DatError>)
    requires
        cell@.len() == 8,
        string_cell_readable(vd@, cell@),
    ensures
        string_result_view(r) == spec_array_string(vd@, cell@),
{
    let pointer = read_u64_le(cell, 0) as usize;
    if pointer < 8 {
        return Err(DatError::StringPointerUnderflow);
    }
    if pointer - 8 >= vd.len() {
        return Err(DatError::StringPointerOverflow);
    }
    let s = take_utf16_string(&vd[pointer - 8..vd.len()]);
    if s.as_str().is_empty() {
        Ok(None)
    } else {
        Ok(Some(s))
    }
}

/// Whether a string pointer inside an array is in bounds.
pub(crate) fn array_string_in_bounds(vd: &[u8], cell: &[u8]) -> (r: bool)
    requires
        cell@.len() == 8,
    ensures
        r == !(spec_array_string(vd@, cell@) is Err),
{
    let pointer = read_u64_le(cell, 0) as usize;
    pointer >= 8 && pointer - 8 < vd.len()
}

/// The error of a string pointer inside an array that is out of bounds.
fn array_string_error(cell: &[u8]) -> (e: DatError)
    requires
        cell@.len() == 8,
    ensures
        forall|vd: Seq<u8>| spec_array_string(vd, cell@) is Err ==> spec_array_string(vd, cell@)
            == Err::<Option<Seq<char>>, DatError>(e),
{
    let pointer = read_u64_le(cell, 0) as usize;
    if pointer < 8 {
        DatError::StringPointerUnderflow
    } else {
        DatError::StringPointerOverflow
    }
}

/// Reads the strings that an array cell of string pointers names.
pub(crate) fn string_array_cell(vd: &[u8], cell: &[u8]) -> (r: Result<Vec<Option<String>>, DatError>)
    requires
        cell@.len() == 16,
        string_array_cell_readable(vd@, cell@),
    ensures
        strings_result_view(r) == spec_string_array_cell(vd@, cell@),
{
    let items = match array_cell(vd, cell, 8) {
        Ok(v) => v,
        Err(e) => {
            return Err(e);
        },
    };
    let ghost mapped = items.deep_view().map_values(|x: Seq<u8>| spec_array_string(vd@, x));
    let mut out: Vec<Option<String>> = Vec::new();
    let mut k: usize = 0;
    assert(mapped.take(0) =~= Seq::<Result<Option<Seq<char>>, DatError>>::empty());
    assert(out.deep_view() =~= Seq::<Option<Seq<char>>>::empty());
    assert forall|j: int| 0 <= j < items@.len() implies (#[trigger] items@[j])@.len() == 8 by {
        assert(items.deep_view()[j].len() == 8);
        assert(items.deep_view()[j] == items@[j].deep_view());
    }
    while k < items.len()
        invariant
            k <= items@.len(),
            mapped == items.deep_view().map_values(|x: Seq<u8>| spec_array_string(vd@, x)),
            spec_array_cell(vd@, cell@, 8) == Ok::<Seq<Seq<u8>>, DatError>(items.deep_view()),
            array_strings_readable(vd@, items.deep_view(), k as int),
            forall|j: int| 0 <= j < items@.len() ==> (#[trigger] items@[j])@.len() == 8,
            collect_results(mapped.take(k as int)) == Ok::<Seq<Option<Seq<char>>>, DatError>(
                out.deep_view(),
            ),
        decreases items@.len() - k,
    {
        let chunk = items[k];
        assert(items.deep_view()[k as int] == chunk@);
        let res = if array_string_in_bounds(vd, chunk) {
            assert(string_cell_readable(vd@, items.deep_view()[k as int]));
            array_string(vd, chunk)
        } else {
            Err(array_string_error(chunk))
        };
        assert(mapped.take(k + 1).drop_last() =~= mapped.take(k as int));
        match res {
            Ok(x) => {
                let ghost before = out.deep_view();
                out.push(x);
                assert(out.deep_view() =~= before.push(x.deep_view()));
                k = k + 1;
            },
            Err(e) => {
                proof {
                    lemma_collect_stuck(mapped, k + 1, mapped.len() as int);
                    assert(mapped.take(mapped.len() as int) =~= mapped);
                }
                return Err(e);
            },
        }
    }
    assert(mapped.take(mapped.len() as int) =~= mapped);
    Ok(out)
}


/// Per row, the array that the 16-byte cell at `offset` names.
pub open spec fn spec_col_arrays(rows: Seq<Seq<u8>>, vd: Seq<u8>, offset: int, dtype_width: nat) -> Result<
    Seq<Result<Seq<Seq<u8>>, DatError>>,
    DatError,
> {
    match spec_view_col(rows, offset, 16) {
        Err(e) => Err(e),
        Ok(cells) => Ok(cells.map_values(|c: Seq<u8>| spec_array_cell(vd, c, dtype_width))),
    }
}

/// Per row, the string that the 8-byte pointer cell at `offset` names.
pub open spec fn spec_col_strings(rows: Seq<Seq<u8>>, vd: Seq<u8>, offset: int) -> Result<
    Seq<Result<Option<Seq<char>>, DatError>>,
    DatError,
> {
    match spec_view_col(rows, offset, 8) {
        Err(e) => Err(e),
        Ok(cells) => Ok(cells.map_values(|c: Seq<u8>| spec_string_cell(vd, c))),
    }
}

/// Per row, the strings that the array cell of string pointers at `offset` names.
pub open spec fn spec_col_string_arrays(rows: Seq<Seq<u8>>, vd: Seq<u8>, offset: int) -> Result<
    Seq<Result<Seq<Option<Seq<char>>>, DatError>>,
    DatError,
> {
    match spec_view_col(rows, offset, 16) {
        Err(e) => Err(e),
        Ok(cells) => Ok(cells.map_values(|c: Seq<u8>| spec_string_array_cell(vd, c))),
    }
}

/// A row of the column, its array items passed through `f`: the same error, or one output per
/// item that `f` may give for it.
pub open spec fn parsed_row<T, F: Fn(&[u8]) -> T>(
    got: Result<Vec<T>, DatError>,
    expected: Result<Seq<Seq<u8>>, DatError>,
    f: F,
) -> bool {
    match expected {
        Err(e) => got == Err::<Vec<T>, DatError>(e),
        Ok(items) => got matches Ok(ts) && ts@.len() == items.len() && forall|k: int|
            0 <= k < items.len() ==> produced_by(f, items[k], #[trigger] ts@[k]),
    }
}

/// `t` is an output that `f` may give for some slice holding `bytes`.
pub open spec fn produced_by<T, F: Fn(&[u8]) -> T>(f: F, bytes: Seq<u8>, t: T) -> bool {
    exists|b: &[u8]| b@ == bytes && call_ensures(f, (b,), t)
}

/// Every item of an array cell is `dtype_width` bytes long.
pub(crate) proof fn lemma_array_cell_items(vd: Seq<u8>, cell: Seq<u8>, dtype_width: nat)
    ensures
        spec_array_cell(vd, cell, dtype_width) matches Ok(items) ==> forall|k: int|
            0 <= k < items.len() ==> #[trigger] items[k].len() == dtype_width,
{
    if let Ok(items) = spec_array_cell(vd, cell, dtype_width) {
        let length = ((le_value(cell, 0, 8) as u64) as usize) as nat;
        let start = ((le_value(cell, 8, 8) as u64) as usize) as nat - 8;
        assert forall|k: int| 0 <= k < items.len() implies #[trigger] items[k].len()
            == dtype_width by {
            assert((k + 1) * dtype_width == k * dtype_width + dtype_width) by (nonlinear_arith);
            assert(0 <= k * dtype_width) by (nonlinear_arith)
                requires
                    0 <= k,
            ;
            assert((k + 1) * dtype_width <= length * dtype_width) by (nonlinear_arith)
                requires
                    k + 1 <= length,
            ;
        }
    }
}


/// Whether reading the string pointer cells from `i` on, up to the first pointer out of bounds,
/// decodes only valid UTF-16 (collecting stops at that pointer).
pub open spec fn cell_strings_readable(vd: Seq<u8>, cells: Seq<Seq<u8>>, i: int) -> bool
    decreases cells.len() - i,
{
    if i < 0 || i >= cells.len() {
        true
    } else if spec_string_cell(vd, cells[i]) is Err {
        true
    } else {
        string_cell_readable(vd, cells[i]) && cell_strings_readable(vd, cells, i + 1)
    }
}

/// Whether reading the array cells of string pointers from `i` on, up to the first cell that
/// fails, decodes only valid UTF-16.
pub open spec fn cell_string_arrays_readable(vd: Seq<u8>, cells: Seq<Seq<u8>>, i: int) -> bool
    decreases cells.len() - i,
{
    if i < 0 || i >= cells.len() {
        true
    } else {
        string_array_cell_readable(vd, cells[i]) && (spec_string_array_cell(vd, cells[i]) is Err
            || cell_string_arrays_readable(vd, cells, i + 1))
    }
}

/// Whether collecting the string column at `offset` decodes only valid UTF-16.
pub open spec fn strings_collect_readable(rows: Seq<Seq<u8>>, vd: Seq<u8>, offset: int) -> bool {
    match spec_view_col(rows, offset, 8) {
        Ok(cells) => cell_strings_readable(vd, cells, 0),
        Err(_) => true,
    }
}

/// Whether collecting the column of string arrays at `offset` decodes only valid UTF-16.
pub open spec fn string_arrays_collect_readable(rows: Seq<Seq<u8>>, vd: Seq<u8>, offset: int) -> bool {
    match spec_view_col(rows, offset, 16) {
        Ok(cells) => cell_string_arrays_readable(vd, cells, 0),
        Err(_) => true,
    }
}

/// Whether a string pointer cell is in bounds.
pub(crate) fn string_cell_in_bounds(vd: &[u8], cell: &[u8]) -> (r: bool)
    requires
        cell@.len() == 8,
    ensures
        r == !(spec_string_cell(vd@, cell@) is Err),
{
    let pointer = read_u64_le(cell, 0) as usize;
    pointer >= 8 && pointer - 8 < vd.len()
}

/// Whether every string pointer cell at `offset` that is in bounds names valid UTF-16.
pub open spec fn strings_readable_at(rows: Seq<Seq<u8>>, vd: Seq<u8>, offset: int) -> bool {
    forall|i: int|
        0 <= i < rows.len() && offset + 8 <= spec_width(rows) ==> string_cell_readable(
            vd,
            #[trigger] rows[i].subrange(offset, offset + 8),
        )
}

/// Whether every in-bounds string pointer inside the array cells at `offset` names valid UTF-16.
pub open spec fn string_arrays_readable_at(rows: Seq<Seq<u8>>, vd: Seq<u8>, offset: int) -> bool {
    forall|i: int|
        0 <= i < rows.len() && offset + 16 <= spec_width(rows) ==> string_array_cell_readable(
            vd,
            #[trigger] rows[i].subrange(offset, offset + 16),
        )
}

impl DatFile {
    /// The rows as byte sequences.
    pub open spec fn spec_rows(&self) -> Seq<Seq<u8>> {
        rows_view(self.rows@)
    }

    /// Number of bytes in a row
    pub fn width(&self) -> (w: usize)
        ensures
            w == spec_width(self.spec_rows()),
    {
        if self.rows.len() == 0 {
            0
        } else {
            self.rows[0].len()
        }
    }
    /// Whether every row is at least as wide as the first (whose width is the table's).
    pub open spec fn wide_rows(&self) -> bool {
        forall|i: int|
            0 <= i < self.spec_rows().len() ==> #[trigger] self.spec_rows()[i].len() >= spec_width(
                self.spec_rows(),
            )
    }

    /// In a table whose rows are at least as wide as the first, every column can be read.
    pub proof fn lemma_wide_rows_readable(&self, offset: int, width: int)
        requires
            self.wide_rows(),
        ensures
            self.col_readable(offset, width),
    {
    }

    /// Whether reading the column `offset..offset + width` stays inside every row, where the
    /// first row is wide enough (a narrower later row panics).
    pub open spec fn col_readable(&self, offset: int, width: int) -> bool {
        offset + width <= spec_width(self.spec_rows()) ==> rows_at_least(
            self.spec_rows(),
            offset + width,
        )
    }

    /// Returns column values as slices
    pub fn view_col(&self, offset: usize, width: usize) -> (r: Result<Vec<&[u8]>, DatError>)
        requires
            offset + width <= usize::MAX,
            self.col_readable(offset as int, width as int),
        ensures
            match r {
                Ok(v) => spec_view_col(self.spec_rows(), offset as int, width as int) == Ok::<
                    Seq<Seq<u8>>,
                    DatError,
                >(v.deep_view()),
                Err(e) => spec_view_col(self.spec_rows(), offset as int, width as int) == Err::<
                    Seq<Seq<u8>>,
                    DatError,
                >(e),
            },
    {
        if offset + width > self.width() {
            return Err(DatError::ColumnOutOfBounds);
        }
        let ghost rows = self.spec_rows();
        let mut out: Vec<&[u8]> = Vec::new();
        let mut i: usize = 0;
        assert(out.deep_view() =~= Seq::new(
            0,
            |j: int| rows[j].subrange(offset as int, offset + width),
        ));
        while i < self.rows.len()
            invariant
                offset + width <= usize::MAX,
                offset + width <= spec_width(rows),
                rows == self.spec_rows(),
                i <= self.rows@.len(),
                rows_at_least(rows, offset + width),
                out.deep_view() == Seq::new(
                    i as nat,
                    |j: int| rows[j].subrange(offset as int, offset + width),
                ),
            decreases self.rows@.len() - i,
        {
            let row = &self.rows[i];
            assert(rows[i as int] == row@);
            let cell = &row.as_slice()[offset..offset + width];
            let ghost before = out.deep_view();
            out.push(cell);
            assert(cell.deep_view() =~= cell@);
            assert(out.deep_view() =~= before.push(cell@));
            i = i + 1;
            assert(out.deep_view() =~= Seq::new(
                i as nat,
                |j: int| rows[j].subrange(offset as int, offset + width),
            ));
        }
        Ok(out)
    }
    /// Whether every string pointer cell at `offset` that is in bounds names valid UTF-16.
    pub open spec fn strings_readable(&self, offset: int) -> bool {
        strings_readable_at(self.spec_rows(), self.variable_data@, offset)
    }

    /// Whether every in-bounds string pointer inside the array cells at `offset` names valid
    /// UTF-16.
    pub open spec fn string_arrays_readable(&self, offset: int) -> bool {
        string_arrays_readable_at(self.spec_rows(), self.variable_data@, offset)
    }

    /// Interpret the column as an array of values, dereferencing from the variable data section
    pub fn view_col_as_array(&self, offset: usize, dtype_width: usize) -> (r: Result<
        Vec<Result<Vec<&[u8]>, DatError>>,
        DatError,
    >)
        requires
            offset + 16 <= usize::MAX,
            self.col_readable(offset as int, 16),
            dtype_width > 0,
        ensures
            match spec_col_arrays(
                self.spec_rows(),
                self.variable_data@,
                offset as int,
                dtype_width as nat,
            ) {
                Ok(expected) => r matches Ok(v) && v@.map_values(
                    |x: Result<Vec<&[u8]>, DatError>| array_result_view(x),
                ) == expected,
                Err(e) => r == Err::<Vec<Result<Vec<&[u8]>, DatError>>, DatError>(e),
            },
    {
        let cells = match self.view_col(offset, 16) {
            Ok(c) => c,
            Err(e) => {
                return Err(e);
            },
        };
        let ghost cv = cells.deep_view();
        assert(offset + 16 <= spec_width(self.spec_rows()));
        assert(cv =~= Seq::new(
            self.spec_rows().len(),
            |j: int| self.spec_rows()[j].subrange(offset as int, offset + 16),
        ));
        let mut out: Vec<Result<Vec<&[u8]>, DatError>> = Vec::new();
        let mut i: usize = 0;
        assert forall|j: int| 0 <= j < cells@.len() implies (#[trigger] cells@[j])@.len() == 16 by {
            assert(cv[j] == cells@[j].deep_view());
        }
        assert(out@.map_values(|x: Result<Vec<&[u8]>, DatError>| array_result_view(x))
            =~= cv.take(0).map_values(
            |c: Seq<u8>| spec_array_cell(self.variable_data@, c, dtype_width as nat),
        ));
        while i < cells.len()
            invariant
                i <= cells@.len(),
                dtype_width > 0,
                cv == cells.deep_view(),
                forall|j: int| 0 <= j < cells@.len() ==> (#[trigger] cells@[j])@.len() == 16,
                out@.map_values(|x: Result<Vec<&[u8]>, DatError>| array_result_view(x))
                    == cv.take(i as int).map_values(
                    |c: Seq<u8>| spec_array_cell(self.variable_data@, c, dtype_width as nat),
                ),
            decreases cells@.len() - i,
        {
            assert(cv[i as int] == cells@[i as int]@);
            let item = array_cell(self.variable_data.as_slice(), cells[i], dtype_width);
            let ghost before = out@;
            out.push(item);
            proof {
                let f = |x: Result<Vec<&[u8]>, DatError>| array_result_view(x);
                let g = |c: Seq<u8>| spec_array_cell(self.variable_data@, c, dtype_width as nat);
                assert(out@.map_values(f) =~= before.map_values(f).push(f(item)));
                assert(cv.take(i + 1).map_values(g) =~= cv.take(i as int).map_values(g).push(
                    g(cv[i as int]),
                ));
            }
            i = i + 1;
        }
        assert(cv.take(cv.len() as int) =~= cv);
        Ok(out)
    }

    /// Interpret a column as strings, dereferencing them from the variable data section
    pub fn view_col_as_string(&self, offset: usize) -> (r: Result<Vec<Result<Option<String>, DatError>>, DatError>)
        requires
            offset + 8 <= usize::MAX,
            self.col_readable(offset as int, 8),
            self.strings_readable(offset as int),
        ensures
            match spec_col_strings(self.spec_rows(), self.variable_data@, offset as int) {
                Ok(expected) => r matches Ok(v) && v@.map_values(|x: Result<Option<String>, DatError>| string_result_view(x))
                    == expected,
                Err(e) => r == Err::<Vec<Result<Option<String>, DatError>>, DatError>(e),
            },
    {
        let cells = match self.view_col(offset, 8) {
            Ok(c) => c,
            Err(e) => {
                return Err(e);
            },
        };
        let ghost cv = cells.deep_view();
        assert(offset + 8 <= spec_width(self.spec_rows()));
        assert(cv =~= Seq::new(
            self.spec_rows().len(),
            |j: int| self.spec_rows()[j].subrange(offset as int, offset + 8),
        ));
        let mut out: Vec<Result<Option<String>, DatError>> = Vec::new();
        let mut i: usize = 0;
        assert forall|j: int| 0 <= j < cells@.len() implies (#[trigger] cells@[j])@.len() == 8 by {
            assert(cv[j] == cells@[j].deep_view());
        }
        assert(out@.map_values(|x: Result<Option<String>, DatError>| string_result_view(x)) =~= cv.take(0).map_values(
            |c: Seq<u8>| spec_string_cell(self.variable_data@, c),
        ));
        while i < cells.len()
            invariant
                i <= cells@.len(),
                cv == cells.deep_view(),
                self.strings_readable(offset as int),
                cv == Seq::new(
                    self.spec_rows().len(),
                    |j: int| self.spec_rows()[j].subrange(offset as int, offset + 8),
                ),
                offset + 8 <= spec_width(self.spec_rows()),
                forall|j: int| 0 <= j < cells@.len() ==> (#[trigger] cells@[j])@.len() == 8,
                out@.map_values(|x: Result<Option<String>, DatError>| string_result_view(x)) == cv.take(i as int).map_values(
                    |c: Seq<u8>| spec_string_cell(self.variable_data@, c),
                ),
            decreases cells@.len() - i,
        {
            assert(cv[i as int] == cells@[i as int]@);
            assert(cv.len() == cells@.len());
            assert((i as int) < self.spec_rows().len());
            assert(string_cell_readable(self.variable_data@, self.spec_rows()[i as int].subrange(offset as int, offset + 8)));
            let item = string_cell(self.variable_data.as_slice(), cells[i]);
            let ghost before = out@;
            out.push(item);
            proof {
                let f = |x: Result<Option<String>, DatError>| string_result_view(x);
                let g = |c: Seq<u8>| spec_string_cell(self.variable_data@, c);
                assert(out@.map_values(f) =~= before.map_values(f).push(f(item)));
                assert(cv.take(i + 1).map_values(g) =~= cv.take(i as int).map_values(g).push(
                    g(cv[i as int]),
                ));
            }
            i = i + 1;
        }
        assert(cv.take(cv.len() as int) =~= cv);
        Ok(out)
    }

    /// Interpret the column as an array of strings
    pub fn view_col_as_array_of_strings(&self, offset: usize) -> (r: Result<Vec<Result<Vec<Option<String>>, DatError>>, DatError>)
        requires
            offset + 16 <= usize::MAX,
            self.col_readable(offset as int, 16),
            self.string_arrays_readable(offset as int),
        ensures
            match spec_col_string_arrays(self.spec_rows(), self.variable_data@, offset as int) {
                Ok(expected) => r matches Ok(v) && v@.map_values(|x: Result<Vec<Option<String>>, DatError>| strings_result_view(x))
                    == expected,
                Err(e) => r == Err::<Vec<Result<Vec<Option<String>>, DatError>>, DatError>(e),
            },
    {
        let cells = match self.view_col(offset, 16) {
            Ok(c) => c,
            Err(e) => {
                return Err(e);
            },
        };
        let ghost cv = cells.deep_view();
        assert(offset + 16 <= spec_width(self.spec_rows()));
        assert(cv =~= Seq::new(
            self.spec_rows().len(),
            |j: int| self.spec_rows()[j].subrange(offset as int, offset + 16),
        ));
        let mut out: Vec<Result<Vec<Option<String>>, DatError>> = Vec::new();
        let mut i: usize = 0;
        assert forall|j: int| 0 <= j < cells@.len() implies (#[trigger] cells@[j])@.len() == 16 by {
            assert(cv[j] == cells@[j].deep_view());
        }
        assert(out@.map_values(|x: Result<Vec<Option<String>>, DatError>| strings_result_view(x)) =~= cv.take(0).map_values(
            |c: Seq<u8>| spec_string_array_cell(self.variable_data@, c),
        ));
        while i < cells.len()
            invariant
                i <= cells@.len(),
                cv == cells.deep_view(),
                self.string_arrays_readable(offset as int),
                cv == Seq::new(
                    self.spec_rows().len(),
                    |j: int| self.spec_rows()[j].subrange(offset as int, offset + 16),
                ),
                offset + 16 <= spec_width(self.spec_rows()),
                forall|j: int| 0 <= j < cells@.len() ==> (#[trigger] cells@[j])@.len() == 16,
                out@.map_values(|x: Result<Vec<Option<String>>, DatError>| strings_result_view(x)) == cv.take(i as int).map_values(
                    |c: Seq<u8>| spec_string_array_cell(self.variable_data@, c),
                ),
            decreases cells@.len() - i,
        {
            assert(cv[i as int] == cells@[i as int]@);
            assert(cv.len() == cells@.len());
            assert((i as int) < self.spec_rows().len());
            assert(string_array_cell_readable(self.variable_data@, self.spec_rows()[i as int].subrange(offset as int, offset + 16)));
            let item = string_array_cell(self.variable_data.as_slice(), cells[i]);
            let ghost before = out@;
            out.push(item);
            proof {
                let f = |x: Result<Vec<Option<String>>, DatError>| strings_result_view(x);
                let g = |c: Seq<u8>| spec_string_array_cell(self.variable_data@, c);
                assert(out@.map_values(f) =~= before.map_values(f).push(f(item)));
                assert(cv.take(i + 1).map_values(g) =~= cv.take(i as int).map_values(g).push(
                    g(cv[i as int]),
                ));
            }
            i = i + 1;
        }
        assert(cv.take(cv.len() as int) =~= cv);
        Ok(out)
    }

    /// Interpret the column as an array of values, dereferencing from the variable_data section
    /// and interpreting them
    pub fn view_col_as_array_of<T, F: Fn(&[u8]) -> T>(
        &self,
        offset: usize,
        dtype_width: usize,
        parse_func: F,
    ) -> (r: Result<Vec<Result<Vec<T>, DatError>>, DatError>)
        requires
            offset + 16 <= usize::MAX,
            self.col_readable(offset as int, 16),
            dtype_width > 0,
            forall|b: &[u8]| b@.len() == dtype_width ==> call_requires(parse_func, (b,)),
        ensures
            match spec_col_arrays(
                self.spec_rows(),
                self.variable_data@,
                offset as int,
                dtype_width as nat,
            ) {
                Ok(expected) => r matches Ok(v) && v@.len() == expected.len() && forall|i: int|
                    0 <= i < v@.len() ==> parsed_row(#[trigger] v@[i], expected[i], parse_func),
                Err(e) => r == Err::<Vec<Result<Vec<T>, DatError>>, DatError>(e),
            },
    {
        let arrays = match self.view_col_as_array(offset, dtype_width) {
            Ok(a) => a,
            Err(e) => {
                return Err(e);
            },
        };
        let ghost expected = arrays@.map_values(
            |x: Result<Vec<&[u8]>, DatError>| array_result_view(x),
        );
        let mut out: Vec<Result<Vec<T>, DatError>> = Vec::new();
        let mut i: usize = 0;
        proof {
            let rows = self.spec_rows();
            let cv = Seq::new(rows.len(), |j: int| rows[j].subrange(offset as int, offset + 16));
            assert forall|j: int| 0 <= j < expected.len() implies (#[trigger] expected[j] matches Ok(
                items,
            ) ==> forall|k: int| 0 <= k < items.len() ==> items[k].len() == dtype_width) by {
                lemma_array_cell_items(self.variable_data@, cv[j], dtype_width as nat);
            }
        }
        while i < arrays.len()
            invariant
                i <= arrays@.len(),
                out@.len() == i,
                expected == arrays@.map_values(
                    |x: Result<Vec<&[u8]>, DatError>| array_result_view(x),
                ),
                forall|b: &[u8]| b@.len() == dtype_width ==> call_requires(parse_func, (b,)),
                forall|j: int|
                    0 <= j < expected.len() ==> (#[trigger] expected[j] matches Ok(items)
                        ==> forall|k: int| 0 <= k < items.len() ==> items[k].len() == dtype_width),
                forall|j: int| 0 <= j < i ==> parsed_row(#[trigger] out@[j], expected[j], parse_func),
            decreases arrays@.len() - i,
        {
            let row = &arrays[i];
            assert(expected[i as int] == array_result_view(arrays@[i as int]));
            let item: Result<Vec<T>, DatError> = match row {
                Err(e) => Err(*e),
                Ok(chunks) => {
                    assert(expected[i as int] == Ok::<Seq<Seq<u8>>, DatError>(chunks.deep_view()));
                    let ghost items = chunks.deep_view();
                    assert forall|m: int| 0 <= m < chunks@.len() implies #[trigger] items[m].len()
                        == dtype_width by {
                        assert(expected[i as int] matches Ok(its) && its == items);
                    }
                    let mut vals: Vec<T> = Vec::new();
                    let mut k: usize = 0;
                    while k < chunks.len()
                        invariant
                            k <= chunks@.len(),
                            vals@.len() == k,
                            forall|b: &[u8]| b@.len() == dtype_width ==> call_requires(parse_func, (b,)),
                            forall|m: int| 0 <= m < chunks@.len() ==> chunks.deep_view()[m].len() == dtype_width,
                            forall|m: int|
                                0 <= m < k ==> produced_by(
                                    parse_func,
                                    chunks.deep_view()[m],
                                    #[trigger] vals@[m],
                                ),
                        decreases chunks@.len() - k,
                    {
                        let chunk = chunks[k];
                        assert(chunk.deep_view() =~= chunk@);
                        assert(chunks.deep_view()[k as int] == chunk.deep_view());
                        let v = parse_func(chunk);
                        assert(produced_by(parse_func, chunks.deep_view()[k as int], v));
                        vals.push(v);
                        k = k + 1;
                    }
                    assert(vals@.len() == items.len());
                    let res: Result<Vec<T>, DatError> = Ok(vals);
                    assert(parsed_row(res, expected[i as int], parse_func));
                    res
                },
            };
            assert(parsed_row(item, expected[i as int], parse_func));
            let ghost before = out@;
            out.push(item);
            assert(forall|j: int| 0 <= j < i ==> out@[j] == before[j]);
            i = i + 1;
        }
        Ok(out)
    }
}

} // verus!
