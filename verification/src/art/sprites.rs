//! Minimap sprite (`.mtp`) files: two little-endian `u32`s (the second counts table rows), a
//! table of 32-byte rows and four more bytes, then null-terminated UTF-16 strings: one `.tdt`
//! path for every four rows, and the `.dds` path of the sprite sheet.
use vstd::prelude::*;
use vstd::string::StringSliceAdditionalSpecFns;
use vstd::utf8::encode_utf8;
use crate::bytes::{copy_range, le16_at, le32_at, read_u16_le, read_u32_le};
use crate::utf16::{decode_utf16_units, spec_utf16_cstr, take_utf16_string, utf16_units_until_nul};

verus! {

/// One 32-byte row of the table, with the fields read from its first 25 bytes.
pub struct MtpRow {
    pub raw: Vec<u8>,
    pub x1: u32,
    pub orientation: u32,
    pub sprite_width: u32,
    pub x3: u16,
    pub bytes1: Vec<u8>,
    pub x5: u8,
    pub x6: u16,
}

/// What a sprite file holds.
pub struct MtpFile {
    pub first: (u32, u32),
    pub rows: Vec<MtpRow>,
    pub tdt_paths: Vec<String>,
    pub dds_path: String,
}

/// The number of table rows.
pub open spec fn mtp_row_count(b: Seq<u8>) -> u32 {
    le32_at(b, 4)
}

/// Where the strings start: after the header, the rows and four more bytes.
pub open spec fn mtp_strings_start(b: Seq<u8>) -> int {
    8 + mtp_row_count(b) * 32 + 4
}

/// The number of `.tdt` paths: one for every four rows.
pub open spec fn mtp_path_count(b: Seq<u8>) -> nat {
    (mtp_row_count(b) / 4) as nat
}

/// `n` strings read one after the other from `offset` of `sb`. Each is read up to its null
/// terminator, and the next one is looked for twice the UTF-8 length of the string, plus two,
/// further on. Gives the strings and the offset after the last.
pub open spec fn mtp_paths(sb: Seq<u8>, offset: int, n: nat) -> Option<(Seq<Seq<char>>, int)>
    decreases n,
{
    if n == 0 {
        Some((Seq::empty(), offset))
    } else if 0 <= offset <= sb.len() {
        match spec_utf16_cstr(sb.skip(offset)) {
            Some(p) => match mtp_paths(sb, offset + (encode_utf8(p).len() + 1) * 2, (n - 1) as nat) {
                Some((rest, end)) => Some((seq![p] + rest, end)),
                None => None,
            },
            None => None,
        }
    } else {
        None
    }
}

/// The strings part of the file.
pub open spec fn mtp_string_bytes(b: Seq<u8>) -> Seq<u8> {
    b.skip(mtp_strings_start(b))
}

/// A file whose header, table and strings can all be read: the header is there, the table fits,
/// each path starts inside the string bytes and is valid UTF-16, and so is the sheet path.
pub open spec fn mtp_readable(b: Seq<u8>) -> bool {
    &&& b.len() >= 8
    &&& mtp_strings_start(b) <= b.len()
    &&& match mtp_paths(mtp_string_bytes(b), 0, mtp_path_count(b)) {
        Some((_, end)) => end <= mtp_string_bytes(b).len() && spec_utf16_cstr(
            mtp_string_bytes(b).skip(end),
        ) is Some,
        None => false,
    }
}

/// Row `i` of the table holds the fields read at its offsets.
pub open spec fn mtp_row_matches(b: Seq<u8>, i: int, row: MtpRow) -> bool {
    let base = 8 + 32 * i;
    &&& row.raw@ == b.subrange(base, base + 32)
    &&& row.x1 == le32_at(b, base)
    &&& row.orientation == le32_at(b, base + 4)
    &&& row.sprite_width == le32_at(b, base + 8)
    &&& row.x3 == le16_at(b, base + 12)
    &&& row.bytes1@ == b.subrange(base + 14, base + 22)
    &&& row.x5 == b[base + 22]
    &&& row.x6 == le16_at(b, base + 23)
}

/// Reads the strings of a sprite file: `n` paths from `offset` on, then the sheet path.
fn read_mtp_strings(sb: &[u8], n: u32) -> (r: (Vec<String>, String))
    requires
        mtp_paths(sb@, 0, n as nat) matches Some((_, end)) && end <= sb@.len() && spec_utf16_cstr(
            sb@.skip(end),
        ) is Some,
    ensures
        mtp_paths(sb@, 0, n as nat) matches Some((paths, end)) && r.0@.map_values(
            |s: String| s@,
        ) == paths && Some(r.1@) == spec_utf16_cstr(sb@.skip(end)),
{
    let ghost total = mtp_paths(sb@, 0, n as nat);
    let mut paths: Vec<String> = Vec::new();
    let mut offset: usize = 0;
    let mut i: u32 = 0;
    while i < n
        invariant
            i <= n,
            offset <= sb@.len(),
            total == mtp_paths(sb@, 0, n as nat),
            total matches Some((_, end)) && end <= sb@.len() && spec_utf16_cstr(sb@.skip(end)) is Some,
            total == match mtp_paths(sb@, offset as int, (n - i) as nat) {
                Some((rest, end)) => Some((paths@.map_values(|s: String| s@) + rest, end)),
                None => None,
            },
        decreases n - i,
    {
        let ghost rest_n = (n - i) as nat;
        assert(sb@.subrange(offset as int, sb@.len() as int) =~= sb@.skip(offset as int));
        let path = take_utf16_string(&sb[offset..sb.len()]);
        let len = path.as_str().as_bytes().len();
        let ghost next = offset + (encode_utf8(path@).len() + 1) * 2;
        proof {
            lemma_paths_end(sb@, next, (rest_n - 1) as nat);
        }
        let old_paths = Ghost(paths@);
        paths.push(path);
        assert(paths@.map_values(|s: String| s@) =~= old_paths@.map_values(|s: String| s@) + seq![
            path@,
        ]);
        offset = offset + (len + 1) * 2;
        i = i + 1;
    }
    assert(sb@.subrange(offset as int, sb@.len() as int) =~= sb@.skip(offset as int));
    let dds = take_utf16_string(&sb[offset..sb.len()]);
    (paths, dds)
}

/// Where a run of paths is read to its end, the offsets it passes never go back and its end is
/// at least where it starts.
proof fn lemma_paths_end(sb: Seq<u8>, offset: int, n: nat)
    ensures
        mtp_paths(sb, offset, n) matches Some((_, end)) ==> offset <= end,
    decreases n,
{
    if n > 0 && 0 <= offset <= sb.len() {
        if let Some(p) = spec_utf16_cstr(sb.skip(offset)) {
            lemma_paths_end(sb, offset + (encode_utf8(p).len() + 1) * 2, (n - 1) as nat);
        }
    }
}

/// Reads a minimap sprite file: its two header numbers, its table rows, its `.tdt` paths and
/// the path of its sprite sheet.
pub fn parse_mtp(bytes: &[u8]) -> (r: MtpFile)
    requires
        mtp_readable(bytes@),
    ensures
        r.first == (le32_at(bytes@, 0), le32_at(bytes@, 4)),
        r.rows@.len() == mtp_row_count(bytes@),
        forall|i: int| 0 <= i < r.rows@.len() ==> mtp_row_matches(bytes@, i, #[trigger] r.rows@[i]),
        mtp_paths(mtp_string_bytes(bytes@), 0, mtp_path_count(bytes@)) matches Some((paths, end))
            && r.tdt_paths@.map_values(|s: String| s@) == paths && Some(r.dds_path@)
            == spec_utf16_cstr(mtp_string_bytes(bytes@).skip(end)),
{
    let first = (read_u32_le(bytes, 0), read_u32_le(bytes, 4));
    let table_rows = first.1;
    let num_objects = table_rows / 4;
    let table_start: usize = 8;
    let len = bytes.len();
    assert(mtp_strings_start(bytes@) <= bytes@.len());
    assert(table_rows as int * 32 + 12 <= bytes@.len());
    let string_start = table_start + table_rows as usize * 32 + 4;
    let mut rows: Vec<MtpRow> = Vec::new();
    let mut i: usize = 0;
    while i < table_rows as usize
        invariant
            i <= table_rows,
            table_rows == mtp_row_count(bytes@),
            8 + table_rows * 32 + 4 <= bytes@.len(),
            len == bytes@.len(),
            table_start == 8,
            rows@.len() == i,
            forall|j: int| 0 <= j < i ==> mtp_row_matches(bytes@, j, #[trigger] rows@[j]),
        decreases table_rows - i,
    {
        assert(32 * i + 32 <= table_rows * 32) by (nonlinear_arith)
            requires
                i < table_rows,
        ;
        let base = table_start + 32 * i;
        let row = MtpRow {
            raw: copy_range(bytes, base, base + 32),
            x1: read_u32_le(bytes, base),
            orientation: read_u32_le(bytes, base + 4),
            sprite_width: read_u32_le(bytes, base + 8),
            x3: read_u16_le(bytes, base + 12),
            bytes1: copy_range(bytes, base + 14, base + 22),
            x5: bytes[base + 22],
            x6: read_u16_le(bytes, base + 23),
        };
        rows.push(row);
        i = i + 1;
    }
    let string_bytes = &bytes[string_start..bytes.len()];
    assert(string_bytes@ =~= mtp_string_bytes(bytes@));
    let (tdt_paths, dds_path) = read_mtp_strings(string_bytes, num_objects);
    MtpFile { first, rows, tdt_paths, dds_path }
}

/// The string that starts at `offset` of `sb`, where it is valid UTF-16.
fn utf16_cstr_at(sb: &[u8], offset: usize) -> (r: Option<String>)
    requires
        offset <= sb@.len(),
    ensures
        match spec_utf16_cstr(sb@.skip(offset as int)) {
            Some(p) => r matches Some(s) && s@ == p,
            None => r is None,
        },
{
    let tail = &sb[offset..sb.len()];
    assert(tail@ =~= sb@.skip(offset as int));
    let units = utf16_units_until_nul(tail);
    match decode_utf16_units(units.as_slice()) {
        Some(_) => Some(take_utf16_string(tail)),
        None => None,
    }
}

/// Where a run of paths ends, if it can be read.
pub open spec fn mtp_paths_end(sb: Seq<u8>, offset: int, n: nat) -> Option<int> {
    match mtp_paths(sb, offset, n) {
        Some((_, end)) => Some(end),
        None => None,
    }
}

/// Whether [`parse_mtp`] can read these bytes.
pub fn is_mtp_readable(bytes: &[u8]) -> (r: bool)
    ensures
        r == mtp_readable(bytes@),
{
    if bytes.len() < 8 {
        return false;
    }
    let rows = read_u32_le(bytes, 4);
    let start: u64 = 8 + rows as u64 * 32 + 4;
    if start > bytes.len() as u64 {
        return false;
    }
    let sb = &bytes[start as usize..bytes.len()];
    assert(sb@ =~= mtp_string_bytes(bytes@));
    let n = rows / 4;
    let ghost total = mtp_paths_end(sb@, 0, n as nat);
    let mut offset: usize = 0;
    let mut i: u32 = 0;
    while i < n
        invariant
            i <= n,
            total == mtp_paths_end(sb@, 0, n as nat),
            total == mtp_paths_end(sb@, offset as int, (n - i) as nat),
            sb@ == mtp_string_bytes(bytes@),
            n as nat == mtp_path_count(bytes@),
            bytes@.len() >= 8,
            mtp_strings_start(bytes@) <= bytes@.len(),
            sb@.len() == sb.len(),
        decreases n - i,
    {
        if offset > sb.len() {
            return false;
        }
        let path = match utf16_cstr_at(sb, offset) {
            Some(p) => p,
            None => {
                return false;
            },
        };
        let len = path.as_str().as_bytes().len();
        let ghost next = offset + (encode_utf8(path@).len() + 1) * 2;
        assert(len == encode_utf8(path@).len());
        let next_offset = match len.checked_add(1) {
            Some(l) => match l.checked_mul(2) {
                Some(st) => offset.checked_add(st),
                None => None,
            },
            None => None,
        };
        match next_offset {
            Some(o) => {
                assert(o == next);
                offset = o;
            },
            None => {
                assert(next > usize::MAX);
                proof {
                    lemma_paths_end(sb@, next, (n - i - 1) as nat);
                }
                return false;
            },
        }
        i = i + 1;
    }
    if offset > sb.len() {
        return false;
    }
    utf16_cstr_at(sb, offset).is_some()
}

} // verus!
