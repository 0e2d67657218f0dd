//! The raw layout of a data table file: a row count, the fixed-width rows, sixteen 0xBB bytes, and
//! the variable data section.
use vstd::prelude::*;
use crate::bytes::{copy_range, le32_at, read_u32_le};
use super::table_view::{rows_view, DatFile};

verus! {

/// Whether sixteen 0xBB bytes start at `i`.
pub open spec fn bb_at(s: Seq<u8>, i: int) -> bool {
    0 <= i && i + 16 <= s.len() && forall|k: int| 0 <= k < 16 ==> #[trigger] s[i + k] == 0xBB
}

/// The first position, from `i` on, where sixteen 0xBB bytes start.
pub open spec fn first_bb_from(s: Seq<u8>, i: int) -> Option<int>
    decreases s.len() - i,
{
    if i < 0 || i + 16 > s.len() {
        None
    } else if bb_at(s, i) {
        Some(i)
    } else {
        first_bb_from(s, i + 1)
    }
}

/// Where the marker is found, it lies inside the bytes.
proof fn lemma_first_bb_bounds(s: Seq<u8>, j: int)
    ensures
        first_bb_from(s, j) matches Some(i) ==> j <= i && i + 16 <= s.len(),
    decreases s.len() - j,
{
    if 0 <= j && j + 16 <= s.len() && !bb_at(s, j) {
        lemma_first_bb_bounds(s, j + 1);
    }
}

/// Splitting loses nothing: the bytes before the marker, the marker, and the bytes after it are
/// the input.
pub proof fn lemma_split_rejoins(input: Seq<u8>)
    ensures
        first_bb_from(input, 0) matches Some(i) ==> input == input.take(i) + Seq::new(
            16,
            |_k: int| 0xBBu8,
        ) + input.skip(i + 16),
{
    lemma_first_bb_bounds(input, 0);
    if let Some(i) = first_bb_from(input, 0) {
        lemma_first_bb_is_marker(input, 0);
        assert forall|m: int| i <= m < i + 16 implies input[m] == 0xBBu8 by {
            assert(input[i + (m - i)] == 0xBB);
        }
        assert(input =~= input.take(i) + Seq::new(16, |_k: int| 0xBBu8) + input.skip(i + 16));
    }
}

/// Where the marker is found, sixteen 0xBB bytes start.
proof fn lemma_first_bb_is_marker(s: Seq<u8>, j: int)
    ensures
        first_bb_from(s, j) matches Some(i) ==> bb_at(s, i),
    decreases s.len() - j,
{
    if 0 <= j && j + 16 <= s.len() && !bb_at(s, j) {
        lemma_first_bb_is_marker(s, j + 1);
    }
}

/// Splits a byte slice into two parts around the first sixteen consecutive 0xBB bytes: the bytes
/// before them and the bytes after them.
pub fn split_on_8_bb(input: &[u8]) -> (r: Option<(&[u8], &[u8])>)
    ensures
        match first_bb_from(input@, 0) {
            Some(i) => r matches Some((a, b)) && a@ == input@.take(i) && b@ == input@.skip(i + 16),
            None => r is None,
        },
{
    let n = input.len();
    if n < 16 {
        return None;
    }
    let mut i: usize = 0;
    while i <= n - 16
        invariant
            n == input@.len(),
            n >= 16,
            i + 16 <= n + 1,
            first_bb_from(input@, 0) == first_bb_from(input@, i as int),
        decreases n - i,
    {
        let mut k: usize = 0;
        while k < 16 && input[i + k] == 0xBB
            invariant
                i + 16 <= n,
                n == input@.len(),
                k <= 16,
                forall|j: int| 0 <= j < k ==> #[trigger] input@[i + j] == 0xBB,
            decreases 16 - k,
        {
            k = k + 1;
        }
        if k == 16 {
            assert(bb_at(input@, i as int));
            let before = &input[0..i];
            let after = &input[i + 16..n];
            assert(before@ =~= input@.take(i as int));
            assert(after@ =~= input@.skip(i + 16));
            return Some((before, after));
        }
        assert(!bb_at(input@, i as int)) by {
            assert(input@[i + k] != 0xBB);
        }
        i = i + 1;
    }
    None
}

/// The table that raw file bytes hold: a little-endian `u32` row count, the rows, the marker,
/// and the variable data. Rows are `fixed / count` bytes wide; a partial last row is dropped.
/// `None` where the bytes are too short for the count or hold no marker.
pub open spec fn spec_raw_table(input: Seq<u8>) -> Option<(Seq<Seq<u8>>, Seq<u8>)> {
    if input.len() < 4 {
        None
    } else {
        let count = le32_at(input, 0);
        let rest = input.skip(4);
        match first_bb_from(rest, 0) {
            None => None,
            Some(i) => {
                let fixed = rest.take(i);
                let width = fixed.len() / (count as nat);
                Some(
                    (
                        Seq::new(
                            fixed.len() / width,
                            |r: int| fixed.subrange(r * width, (r + 1) * width),
                        ),
                        rest.skip(i + 16),
                    ),
                )
            },
        }
    }
}

/// Whether reading the raw table divides by zero: a row count of zero, or fewer fixed bytes
/// than rows.
pub open spec fn raw_table_panics(input: Seq<u8>) -> bool {
    input.len() >= 4 && match first_bb_from(input.skip(4), 0) {
        None => false,
        Some(i) => le32_at(input, 0) == 0 || i < le32_at(input, 0),
    }
}

/// Whether reading the raw table would divide by zero, as [`raw_table_panics`] says.
pub fn raw_table_would_panic(input: &[u8]) -> (r: bool)
    ensures
        r == raw_table_panics(input@),
{
    if input.len() < 4 {
        return false;
    }
    let count = read_u32_le(input, 0);
    let rest = &input[4..input.len()];
    assert(rest@ =~= input@.skip(4));
    match split_on_8_bb(rest) {
        Some((fixed, _)) => {
            proof {
                lemma_first_bb_bounds(rest@, 0);
            }
            count == 0 || fixed.len() < count as usize
        },
        None => false,
    }
}

impl DatFile {
    /// Reads a table from the raw bytes of a file.
    pub fn from_raw_bytes(input: &[u8]) -> (r: Option<DatFile>)
        requires
            !raw_table_panics(input@),
        ensures
            match spec_raw_table(input@) {
                Some((rows, vd)) => r matches Some(t) && t.spec_rows() == rows && t.variable_data@
                    == vd && t.wide_rows(),
                None => r is None,
            },
    {
        if input.len() < 4 {
            return None;
        }
        let count = read_u32_le(input, 0) as usize;
        let rest = &input[4..input.len()];
        assert(rest@ =~= input@.skip(4));
        let (fixed, variable) = match split_on_8_bb(rest) {
            Some(x) => x,
            None => {
                return None;
            },
        };
        proof {
            lemma_first_bb_bounds(rest@, 0);
        }
        assert(fixed@.len() >= count && count > 0);
        let width = fixed.len() / count;
        assert(width > 0) by (nonlinear_arith)
            requires
                width == fixed@.len() / (count as nat),
                fixed@.len() >= count,
                count > 0,
        ;
        let n_rows = fixed.len() / width;
        let ghost fv = fixed@;
        let mut rows: Vec<Vec<u8>> = Vec::new();
        let mut r: usize = 0;
        proof {
            assert(n_rows * width <= fixed@.len()) by (nonlinear_arith)
                requires
                    n_rows == fixed@.len() / (width as nat),
                    width > 0,
            ;
        }
        while r < n_rows
            invariant
                width > 0,
                n_rows == fv.len() / (width as nat),
                n_rows * width <= fv.len(),
                fv.len() == fixed.len(),
                fv == fixed@,
                r <= n_rows,
                rows_view(rows@) == Seq::new(
                    r as nat,
                    |k: int| fv.subrange(k * width, (k + 1) * width),
                ),
            decreases n_rows - r,
        {
            proof {
                assert((r + 1) * width <= n_rows * width) by (nonlinear_arith)
                    requires
                        r + 1 <= n_rows,
                        width > 0,
                ;
                assert((r + 1) * width == r * width + width) by (nonlinear_arith);
            }
            let lo = r * width;
            let hi = lo + width;
            let row = copy_range(fixed, lo, hi);
            let ghost before = rows@;
            rows.push(row);
            assert(rows_view(rows@) =~= rows_view(before).push(row@));
            r = r + 1;
            assert(rows_view(rows@) =~= Seq::new(
                r as nat,
                |k: int| fv.subrange(k * width, (k + 1) * width),
            ));
        }
        assert forall|i: int| 0 <= i < rows_view(rows@).len() implies #[trigger] rows_view(rows@)[i].len()
            == super::table_view::spec_width(rows_view(rows@)) by {
            assert(rows_view(rows@)[i] == fv.subrange(i * width, (i + 1) * width));
            assert(rows_view(rows@)[0] == fv.subrange(0 * width, (0 + 1) * width));
            assert((i + 1) * width == i * width + width) by (nonlinear_arith);
            assert(i * width + width <= n_rows * width) by (nonlinear_arith)
                requires
                    i < n_rows,
                    width > 0,
            ;
            assert(0 <= i * width) by (nonlinear_arith)
                requires
                    0 <= i,
                    width > 0,
            ;
        }
        let variable_data = copy_range(variable, 0, variable.len());
        assert(variable_data@ =~= variable@);
        Some(DatFile { rows, variable_data })
    }
}

} // verus!
