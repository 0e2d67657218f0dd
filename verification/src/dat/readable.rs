//! Checking beforehand that reading a table's string columns will only decode valid UTF-16, the
//! condition under which the column readers are given a table.
use vstd::prelude::*;
use crate::bytes::read_u64_le;
use crate::utf16::is_utf16_cstr;
use super::table_view::{
    lemma_array_cell_items, array_cell, array_string_in_bounds, array_strings_readable, cell_string_arrays_readable,
    cell_strings_readable, collect_results, spec_array_cell, spec_array_string, spec_string_array_cell,
    spec_string_cell, spec_view_col, spec_width, string_array_cell_readable, string_arrays_collect_readable,
    string_cell_in_bounds, string_cell_readable, strings_collect_readable, DatError, DatFile,
};

verus! {

/// Whether the string that a pointer cell names, if in bounds, is valid UTF-16.
fn string_cell_is_readable(vd: &[u8], cell: &[u8]) -> (r: bool)
    requires
        cell@.len() == 8,
    ensures
        r == string_cell_readable(vd@, cell@),
{
    let pointer = read_u64_le(cell, 0) as usize;
    if pointer >= 8 && pointer - 8 < vd.len() {
        let tail = &vd[pointer - 8..vd.len()];
        is_utf16_cstr(tail)
    } else {
        true
    }
}

/// Results that are all values collect to values.
proof fn lemma_collect_ok<T, E>(s: Seq<Result<T, E>>)
    requires
        forall|i: int| 0 <= i < s.len() ==> (#[trigger] s[i]) is Ok,
    ensures
        collect_results(s) is Ok,
    decreases s.len(),
{
    if s.len() > 0 {
        assert forall|i: int| 0 <= i < s.drop_last().len() implies (
        #[trigger] s.drop_last()[i]) is Ok by {
            assert(s.drop_last()[i] == s[i]);
        }
        lemma_collect_ok(s.drop_last());
    }
}

/// Whether reading an array cell of string pointers fails (its slice is out of bounds, or one of
/// its pointers is), whatever the strings hold.
fn string_array_cell_fails(vd: &[u8], cell: &[u8]) -> (r: bool)
    requires
        cell@.len() == 16,
    ensures
        r == (spec_string_array_cell(vd@, cell@) is Err),
{
    let items = match array_cell(vd, cell, 8) {
        Ok(v) => v,
        Err(_) => {
            return true;
        },
    };
    let ghost iv = items.deep_view();
    proof {
        lemma_array_cell_items(vd@, cell@, 8);
    }
    let ghost mapped = iv.map_values(|x: Seq<u8>| spec_array_string(vd@, x));
    assert forall|j: int| 0 <= j < items@.len() implies (#[trigger] items@[j])@.len() == 8 by {
        assert(iv[j].len() == 8);
        assert(iv[j] == items@[j].deep_view());
    }
    let mut k: usize = 0;
    while k < items.len()
        invariant
            k <= items@.len(),
            iv == items.deep_view(),
            mapped == iv.map_values(|x: Seq<u8>| spec_array_string(vd@, x)),
            spec_array_cell(vd@, cell@, 8) == Ok::<Seq<Seq<u8>>, DatError>(iv),
            forall|j: int| 0 <= j < items@.len() ==> (#[trigger] items@[j])@.len() == 8,
            forall|j: int| 0 <= j < k ==> (#[trigger] mapped[j]) is Ok,
        decreases items@.len() - k,
    {
        let chunk = items[k];
        assert(iv[k as int] == chunk@);
        if !array_string_in_bounds(vd, chunk) {
            proof {
                assert forall|j: int| 0 <= j < mapped.take(k as int).len() implies (
                #[trigger] mapped.take(k as int)[j]) is Ok by {
                    assert(mapped.take(k as int)[j] == mapped[j]);
                }
                lemma_collect_ok(mapped.take(k as int));
                assert(mapped.take(k + 1).drop_last() =~= mapped.take(k as int));
                assert(collect_results(mapped.take(k + 1)) is Err);
                super::table_view::lemma_collect_stuck(mapped, k + 1, mapped.len() as int);
                assert(mapped.take(mapped.len() as int) =~= mapped);
            }
            return true;
        }
        k = k + 1;
    }
    proof {
        lemma_collect_ok(mapped);
    }
    false
}

/// Whether the strings that reading an array cell of string pointers decodes are valid UTF-16.
fn string_array_cell_is_readable(vd: &[u8], cell: &[u8]) -> (r: bool)
    requires
        cell@.len() == 16,
    ensures
        r == string_array_cell_readable(vd@, cell@),
{
    let items = match array_cell(vd, cell, 8) {
        Ok(v) => v,
        Err(_) => {
            return true;
        },
    };
    let ghost iv = items.deep_view();
    proof {
        lemma_array_cell_items(vd@, cell@, 8);
    }
    assert(spec_array_cell(vd@, cell@, 8) == Ok::<Seq<Seq<u8>>, DatError>(iv));
    assert(iv.len() == items@.len());
    assert forall|j: int| 0 <= j < items@.len() implies (#[trigger] items@[j])@.len() == 8 by {
        assert(iv[j].len() == 8);
        assert(iv[j] == items@[j].deep_view());
    }
    let mut k: usize = 0;
    while k < items.len()
        invariant
            k <= items@.len(),
            iv == items.deep_view(),
            spec_array_cell(vd@, cell@, 8) == Ok::<Seq<Seq<u8>>, DatError>(iv),
            forall|j: int| 0 <= j < items@.len() ==> (#[trigger] items@[j])@.len() == 8,
            array_strings_readable(vd@, iv, 0) == array_strings_readable(vd@, iv, k as int),
        decreases items@.len() - k,
    {
        let chunk = items[k];
        assert(iv[k as int] == chunk@);
        if !array_string_in_bounds(vd, chunk) {
            return true;
        }
        if !string_cell_is_readable(vd, chunk) {
            return false;
        }
        k = k + 1;
    }
    true
}

impl DatFile {
    /// Whether collecting the string column at `offset` decodes only valid UTF-16.
    pub fn strings_collect_is_readable(&self, offset: usize) -> (r: bool)
        requires
            self.wide_rows(),
            offset + 8 <= usize::MAX,
        ensures
            r == strings_collect_readable(self.spec_rows(), self.variable_data@, offset as int),
    {
        proof {
            self.lemma_wide_rows_readable(offset as int, 8);
        }
        let cells = match self.view_col(offset, 8) {
            Ok(c) => c,
            Err(_) => {
                return true;
            },
        };
        let ghost cv = cells.deep_view();
        let vd = self.variable_data.as_slice();
        assert(cv.len() == cells@.len());
        assert(offset + 8 <= spec_width(self.spec_rows()));
        assert forall|j: int| 0 <= j < cells@.len() implies (#[trigger] cells@[j])@.len() == 8 by {
            assert(cv[j] == self.spec_rows()[j].subrange(offset as int, offset + 8));
            assert(self.spec_rows()[j].len() >= offset + 8);
            assert(cv[j] == cells@[j].deep_view());
        }
        let mut i: usize = 0;
        while i < cells.len()
            invariant
                i <= cells@.len(),
                cv == cells.deep_view(),
                vd@ == self.variable_data@,
                spec_view_col(self.spec_rows(), offset as int, 8) == Ok::<Seq<Seq<u8>>, DatError>(cv),
                forall|j: int| 0 <= j < cells@.len() ==> (#[trigger] cells@[j])@.len() == 8,
                cell_strings_readable(vd@, cv, 0) == cell_strings_readable(vd@, cv, i as int),
            decreases cells@.len() - i,
        {
            let cell = cells[i];
            assert(cv[i as int] == cell@);
            if !string_cell_in_bounds(vd, cell) {
                return true;
            }
            if !string_cell_is_readable(vd, cell) {
                return false;
            }
            i = i + 1;
        }
        true
    }

    /// Whether collecting the column of string arrays at `offset` decodes only valid UTF-16.
    pub fn string_arrays_collect_is_readable(&self, offset: usize) -> (r: bool)
        requires
            self.wide_rows(),
            offset + 16 <= usize::MAX,
        ensures
            r == string_arrays_collect_readable(self.spec_rows(), self.variable_data@, offset as int),
    {
        proof {
            self.lemma_wide_rows_readable(offset as int, 16);
        }
        let cells = match self.view_col(offset, 16) {
            Ok(c) => c,
            Err(_) => {
                return true;
            },
        };
        let ghost cv = cells.deep_view();
        let vd = self.variable_data.as_slice();
        assert(cv.len() == cells@.len());
        assert(offset + 16 <= spec_width(self.spec_rows()));
        assert forall|j: int| 0 <= j < cells@.len() implies (#[trigger] cells@[j])@.len() == 16 by {
            assert(cv[j] == self.spec_rows()[j].subrange(offset as int, offset + 16));
            assert(self.spec_rows()[j].len() >= offset + 16);
            assert(cv[j] == cells@[j].deep_view());
        }
        let mut i: usize = 0;
        while i < cells.len()
            invariant
                i <= cells@.len(),
                cv == cells.deep_view(),
                vd@ == self.variable_data@,
                spec_view_col(self.spec_rows(), offset as int, 16) == Ok::<Seq<Seq<u8>>, DatError>(cv),
                forall|j: int| 0 <= j < cells@.len() ==> (#[trigger] cells@[j])@.len() == 16,
                cell_string_arrays_readable(vd@, cv, 0) == cell_string_arrays_readable(vd@, cv, i as int),
            decreases cells@.len() - i,
        {
            let cell = cells[i];
            assert(cv[i as int] == cell@);
            if !string_array_cell_is_readable(vd, cell) {
                return false;
            }
            if string_array_cell_fails(vd, cell) {
                return true;
            }
            i = i + 1;
        }
        true
    }
}

} // verus!
