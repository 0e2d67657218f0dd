//! A debug view of a table: each row's bytes in hex.
use vstd::prelude::*;
use crate::utf16::string_from_chars;
use super::table_view::{rows_view, DatFile};

verus! {

/// The lower-case hex digit for `n` (below 16).
pub open spec fn hex_digit(n: nat) -> char {
    if n < 10 {
        ((n + 48) as u32) as char
    } else {
        ((n + 87) as u32) as char
    }
}

/// A byte as two hex digits (`{:02x}`).
pub open spec fn hex_byte(b: u8) -> Seq<char> {
    seq![hex_digit((b / 16) as nat), hex_digit((b % 16) as nat)]
}

/// A row's bytes in hex, separated by single spaces.
pub open spec fn hex_row(row: Seq<u8>) -> Seq<char>
    decreases row.len(),
{
    if row.len() == 0 {
        Seq::empty()
    } else if row.len() == 1 {
        hex_byte(row[0])
    } else {
        hex_row(row.drop_last()) + seq![' '] + hex_byte(row.last())
    }
}

/// Every row in hex, each followed by a newline.
pub open spec fn hex_rows(rows: Seq<Seq<u8>>) -> Seq<char>
    decreases rows.len(),
{
    if rows.len() == 0 {
        Seq::empty()
    } else {
        hex_rows(rows.drop_last()) + hex_row(rows.last()) + seq!['\n']
    }
}

fn hex_digit_char(n: u8) -> (c: char)
    requires
        n < 16,
    ensures
        c == hex_digit(n as nat),
{
    let code: u32 = if n < 10 {
        n as u32 + 48
    } else {
        n as u32 + 87
    };
    match crate::utf16::char_from_u32(code) {
        Some(c) => c,
        None => ' ',
    }
}

/// Appends the hex form of a row.
fn push_hex_row(row: &Vec<u8>, out: &mut Vec<char>)
    ensures
        final(out)@ == old(out)@ + hex_row(row@),
{
    let mut i: usize = 0;
    let ghost start = out@;
    assert(row@.take(0) =~= Seq::<u8>::empty());
    assert(out@ =~= start + hex_row(row@.take(0)));
    while i < row.len()
        invariant
            i <= row@.len(),
            out@ == start + hex_row(row@.take(i as int)),
        decreases row@.len() - i,
    {
        let b = row[i];
        let ghost before = out@;
        if i > 0 {
            out.push(' ');
        }
        out.push(hex_digit_char(b / 16));
        out.push(hex_digit_char(b % 16));
        assert(row@.take(i + 1).drop_last() =~= row@.take(i as int));
        i = i + 1;
        if i == 1 {
            assert(out@ =~= start + hex_row(row@.take(i as int)));
        } else {
            assert(out@ =~= start + hex_row(row@.take(i as int)));
        }
    }
    assert(row@.take(row@.len() as int) =~= row@);
}

impl DatFile {
    /// Debug - the values of each row as hex, one row per line
    pub fn hex_dump(&self) -> (s: String)
        ensures
            s@ == hex_rows(self.spec_rows()),
    {
        let mut out: Vec<char> = Vec::new();
        let mut r: usize = 0;
        let ghost rows = self.spec_rows();
        assert(rows.take(0) =~= Seq::<Seq<u8>>::empty());
        while r < self.rows.len()
            invariant
                r <= self.rows@.len(),
                rows == self.spec_rows(),
                out@ == hex_rows(rows.take(r as int)),
            decreases self.rows@.len() - r,
        {
            push_hex_row(&self.rows[r], &mut out);
            out.push('\n');
            assert(rows.take(r + 1).drop_last() =~= rows.take(r as int));
            assert(rows[r as int] == self.rows@[r as int]@);
            r = r + 1;
            assert(out@ =~= hex_rows(rows.take(r as int)));
        }
        assert(rows.take(rows.len() as int) =~= rows);
        string_from_chars(out.as_slice())
    }
}

} // verus!
