//! The `.tdt` format as a mathematical grammar: each function reads a field at a position of
//! the input and says what the field holds and where the next field starts.
use vstd::prelude::*;
use crate::bytes::{le16_at, le32_at};
use crate::utf16::{decode_utf16, le_units};
use super::types::{HeaderModel, SubtileModel, TailModel, TDTFileModel, TrailingModel, FIXED_BLOCK_LEN};

verus! {

/// Why a `.tdt` file could not be parsed.
#[derive(Debug, Clone, Copy, PartialEq, Eq, Structural)]
pub enum TdtErrorKind {
    /// The input ended before a field was complete
    Incomplete,
    /// The strings section is not valid UTF-16
    InvalidUtf16,
    /// A string index points at or past the end of the strings section
    StringIndexOutOfBounds,
    /// No null character follows the start of an indexed string
    MissingNullTerminator,
    /// No subtile count equal to the product of the tile dimensions was found
    SubtileCountNotFound,
    /// A value of `flags2` without a known subtile byte layout
    UnknownFlags2(u8),
    /// A subtile kind without a known body layout
    UnknownSubtileKind(u8),
    /// A boolean byte other than 0 or 1
    InvalidBool(u8),
    /// Bytes are left after the last field
    TrailingBytes,
}

/// Outcome of reading a field at a position: the field's value and the position after it,
/// a parse failure, or a case on which the reader panics.
pub enum Step<T> {
    Done(T, int),
    Fail(TdtErrorKind),
    Abort,
}

/// Why a reader stopped.
pub enum Stop {
    /// The input does not parse
    Error(TdtErrorKind),
    /// A string index falls inside a character of the strings section
    SplitChar,
}

/// A reader's result agrees with the grammar: the same value and end position, the same
/// failure, or a stop where the grammar aborts.
pub open spec fn agrees<T: DeepView>(r: Result<(T, usize), Stop>, st: Step<T::V>) -> bool {
    match r {
        Ok((v, q)) => st == Step::Done(v.deep_view(), q as int),
        Err(Stop::Error(e)) => st == Step::<T::V>::Fail(e),
        Err(Stop::SplitChar) => st is Abort,
    }
}

/// Sequencing: read `a`, then continue with its value and end position.
pub open spec fn bind<A, B>(a: Step<A>, k: spec_fn(A, int) -> Step<B>) -> Step<B> {
    match a {
        Step::Done(x, q) => k(x, q),
        Step::Fail(e) => Step::Fail(e),
        Step::Abort => Step::Abort,
    }
}

/// A field that is present only when `cond` holds; absent fields take no bytes.
pub open spec fn sp_opt<T>(cond: bool, a: Step<T>, p: int) -> Step<Option<T>> {
    if cond {
        bind(a, |x: T, q: int| Step::Done(Some(x), q))
    } else {
        Step::Done(None, p)
    }
}

/// `n` consecutive fields read by `item`, starting at `p`.
pub open spec fn sp_repeat<T>(item: spec_fn(int) -> Step<T>, p: int, n: nat) -> Step<Seq<T>>
    decreases n,
{
    if n == 0 {
        Step::Done(Seq::empty(), p)
    } else {
        bind(
            sp_repeat(item, p, (n - 1) as nat),
            |xs: Seq<T>, q: int| bind(item(q), |x: T, r: int| Step::Done(xs.push(x), r)),
        )
    }
}

/// Flattening of an optional optional value.
pub open spec fn flatten<T>(o: Option<Option<T>>) -> Option<T> {
    match o {
        Some(Some(x)) => Some(x),
        _ => None,
    }
}

pub open spec fn sp_u8(s: Seq<u8>, p: int) -> Step<u8> {
    if p + 1 <= s.len() {
        Step::Done(s[p], p + 1)
    } else {
        Step::Fail(TdtErrorKind::Incomplete)
    }
}

pub open spec fn sp_u16(s: Seq<u8>, p: int) -> Step<u16> {
    if p + 2 <= s.len() {
        Step::Done(le16_at(s, p), p + 2)
    } else {
        Step::Fail(TdtErrorKind::Incomplete)
    }
}

pub open spec fn sp_u32(s: Seq<u8>, p: int) -> Step<u32> {
    if p + 4 <= s.len() {
        Step::Done(le32_at(s, p), p + 4)
    } else {
        Step::Fail(TdtErrorKind::Incomplete)
    }
}

/// A byte that must be 0 (false) or 1 (true).
pub open spec fn sp_bool(s: Seq<u8>, p: int) -> Step<bool> {
    if p + 1 <= s.len() {
        if s[p] == 0 {
            Step::Done(false, p + 1)
        } else if s[p] == 1 {
            Step::Done(true, p + 1)
        } else {
            Step::Fail(TdtErrorKind::InvalidBool(s[p]))
        }
    } else {
        Step::Fail(TdtErrorKind::Incomplete)
    }
}

/// `n` raw bytes.
pub open spec fn sp_take(s: Seq<u8>, p: int, n: nat) -> Step<Seq<u8>> {
    if p + n <= s.len() {
        Step::Done(s.subrange(p, p + n), p + n)
    } else {
        Step::Fail(TdtErrorKind::Incomplete)
    }
}

/// The strings section: a `u32` count of UTF-16LE code units, then the units.
#[verifier::opaque]
pub open spec fn sp_strings_section(s: Seq<u8>, p: int) -> Step<Seq<char>> {
    bind(
        sp_u32(s, p),
        |n: u32, q: int|
            if q + 2 * n <= s.len() {
                match decode_utf16(le_units(s.subrange(q, q + 2 * n))) {
                    Some(chars) => Step::Done(chars, q + 2 * n),
                    None => Step::Fail(TdtErrorKind::InvalidUtf16),
                }
            } else {
                Step::Fail(TdtErrorKind::Incomplete)
            },
    )
}

/// Number of bytes that UTF-8 takes for a character.
pub open spec fn utf8_width(c: char) -> nat {
    if (c as u32) < 0x80 {
        1
    } else if (c as u32) < 0x800 {
        2
    } else if (c as u32) < 0x10000 {
        3
    } else {
        4
    }
}

/// Number of bytes that UTF-8 takes for a string.
pub open spec fn utf8_len(s: Seq<char>) -> nat
    decreases s.len(),
{
    if s.len() == 0 {
        0
    } else {
        utf8_len(s.drop_last()) + utf8_width(s.last())
    }
}

/// Whether UTF-8 byte offset `i` starts character `k`.
pub open spec fn starts_char(s: Seq<char>, k: int, i: int) -> bool {
    0 <= k <= s.len() && utf8_len(s.take(k)) == i
}

/// The character index at UTF-8 byte offset `i`, if a character starts there.
pub open spec fn char_at_byte(s: Seq<char>, i: int) -> Option<int> {
    if exists|k: int| starts_char(s, k, i) {
        Some(choose|k: int| starts_char(s, k, i))
    } else {
        None
    }
}

/// Index of the first null character at or after `k`.
pub open spec fn first_nul_from(s: Seq<char>, k: int) -> Option<int>
    decreases s.len() - k,
{
    if k < 0 || k >= s.len() {
        None
    } else if s[k] == '\0' {
        Some(k)
    } else {
        first_nul_from(s, k + 1)
    }
}

/// The string that index `i` names in the strings section: `u32::MAX` names none; otherwise
/// `i` is a UTF-8 byte offset into the strings section, and the string runs from there to the
/// next null character; an empty string counts as none. An offset inside a character panics.
pub open spec fn sp_lookup(strings: Seq<char>, i: u32, q: int) -> Step<Option<Seq<char>>> {
    if i == 0xFFFF_FFFFu32 {
        Step::Done(None, q)
    } else if i >= utf8_len(strings) {
        Step::Fail(TdtErrorKind::StringIndexOutOfBounds)
    } else {
        match char_at_byte(strings, i as int) {
            None => Step::Abort,
            Some(k) => match first_nul_from(strings, k) {
                None => Step::Fail(TdtErrorKind::MissingNullTerminator),
                Some(j) => if j == k {
                    Step::Done(None, q)
                } else {
                    Step::Done(Some(strings.subrange(k, j)), q)
                },
            },
        }
    }
}

/// A `u32` string index, resolved against the strings section.
pub open spec fn sp_indexed_string(strings: Seq<char>, s: Seq<u8>, p: int) -> Step<
    Option<Seq<char>>,
> {
    bind(sp_u32(s, p), |i: u32, q: int| sp_lookup(strings, i, q))
}

/// Reader of one indexed string.
pub open spec fn indexed_string_item(strings: Seq<char>, s: Seq<u8>) -> spec_fn(int) -> Step<
    Option<Seq<char>>,
> {
    |q: int| sp_indexed_string(strings, s, q)
}

/// `n` indexed strings.
pub open spec fn sp_indexed_strings(strings: Seq<char>, s: Seq<u8>, p: int, n: nat) -> Step<
    Seq<Option<Seq<char>>>,
> {
    sp_repeat(indexed_string_item(strings, s), p, n)
}

/// Reader of one boolean byte.
pub open spec fn bool_item(s: Seq<u8>) -> spec_fn(int) -> Step<bool> {
    |q: int| sp_bool(s, q)
}

/// Reader of one fixed block.
pub open spec fn fixed_block_item(s: Seq<u8>) -> spec_fn(int) -> Step<Seq<u8>> {
    |q: int| sp_fixed_block(s, q)
}

/// Reader of one little-endian `u32`.
pub open spec fn u32_item(s: Seq<u8>) -> spec_fn(int) -> Step<u32> {
    |q: int| sp_u32(s, q)
}

/// Reader of one subtile.
pub open spec fn subtile_item(s: Seq<u8>, flags2: u8, version: u32) -> spec_fn(int) -> Step<
    SubtileModel,
> {
    |q: int| sp_subtile(s, q, flags2, version)
}

/// Header flag values after which the file has a tag and a tail.
pub open spec fn is_tail_flag(f: u8) -> bool {
    f == 8 || f == 9 || f == 0xa || f == 0x1a || f == 0x18 || f == 0x2a || f == 0x1c || f == 0x1e
}

/// Whether the header holds a tgt file for these flags.
pub open spec fn has_tgt(flags: Option<u8>) -> bool {
    match flags {
        None => true,
        Some(f) => f == 1 || f == 2 || f == 9,
    }
}

/// Whether the header holds a tag, and the file a tail, for these flags.
pub open spec fn has_tail(flags: Option<u8>) -> bool {
    match flags {
        None => true,
        Some(f) => is_tail_flag(f),
    }
}

/// Whether the header holds the `u16` number for these flags.
pub open spec fn has_num(flags: Option<u8>) -> bool {
    match flags {
        None => false,
        Some(f) => f == 1 || f == 2,
    }
}

/// The header: the tdt file; flags if there is a tdt file; then, depending on the flags, a
/// number, a tgt file and a tag.
#[verifier::opaque]
pub open spec fn sp_header(strings: Seq<char>, s: Seq<u8>, p: int) -> Step<HeaderModel> {
    bind(
        sp_indexed_string(strings, s, p),
        |tdt_file: Option<Seq<char>>, p1: int|
            bind(
                sp_opt(tdt_file is Some, sp_u8(s, p1), p1),
                |flags: Option<u8>, p2: int|
                    bind(
                        sp_opt(has_num(flags), sp_u16(s, p2), p2),
                        |num: Option<u16>, p3: int|
                            bind(
                                sp_opt(has_tgt(flags), sp_indexed_string(strings, s, p3), p3),
                                |tgt: Option<Option<Seq<char>>>, p4: int|
                                    bind(
                                        sp_opt(
                                            has_tail(flags),
                                            sp_indexed_string(strings, s, p4),
                                            p4,
                                        ),
                                        |tag: Option<Option<Seq<char>>>, p5: int|
                                            Step::Done(
                                                HeaderModel {
                                                    tdt_file,
                                                    flags,
                                                    num,
                                                    tgt_file: flatten(tgt),
                                                    tag: flatten(tag),
                                                },
                                                p5,
                                            ),
                                    ),
                            ),
                    ),
            ),
    )
}

/// A block of `FIXED_BLOCK_LEN` bytes.
pub open spec fn sp_fixed_block(s: Seq<u8>, p: int) -> Step<Seq<u8>> {
    sp_take(s, p, FIXED_BLOCK_LEN as nat)
}

/// A `u16` length, then that many bytes.
pub open spec fn sp_vary_block(s: Seq<u8>, p: int) -> Step<Seq<u8>> {
    bind(sp_u16(s, p), |n: u16, q: int| sp_take(s, q, n as nat))
}

/// Number of extra subtile bytes for a value of `flags2`, where the layout is known.
pub open spec fn flags2_byte_count(flags2: u8) -> Option<nat> {
    if flags2 == 4 || flags2 == 5 || flags2 == 7 {
        Some(0)
    } else if flags2 == 6 {
        Some(5)
    } else {
        None
    }
}

/// Body layout of a subtile kind: 0 nothing, 1 a vary block, 2 a fixed block, 3 a fixed block
/// then a vary block.
pub open spec fn spec_subtile_body(kind: u8) -> Option<u8> {
    match kind {
        0x50u8 | 0x07 | 0x20 | 0x0f | 0x1f | 0x2f | 0x3f | 0x4f | 0x5f | 0x6f | 0x7f | 0x8f
        | 0xaf | 0xcf | 0xdf | 0xef | 0xff | 0x3b | 0x5b | 0x7b | 0x9b | 0xcb | 0xeb
        | 0xfb => Some(0u8),
        0x04u8 | 0x24 | 0x44 | 0x64 | 0x84 | 0xa4 | 0xc4 | 0xe4 | 0xed | 0x06 | 0x0d | 0x26
        | 0x46 | 0x66 | 0x86 | 0xa6 | 0xc6 | 0xe6 => Some(1u8),
        0x5du8 | 0x0b | 0x1b | 0x2b | 0x4b | 0x6b | 0xdb | 0xec | 0xe0 | 0x8a | 0x8b | 0x83
        | 0x93 | 0x94 | 0x97 | 0x9f | 0x03 | 0x18 | 0x1e | 0x30 | 0x41 | 0x22 | 0x42 | 0x62
        | 0x82 | 0xa2 | 0xc2 | 0xe2 => Some(2u8),
        0x00u8 | 0x02 | 0x09 => Some(3u8),
        _ => None,
    }
}

/// The subtile body for a layout: (fixed block, vary block).
pub open spec fn sp_subtile_body(s: Seq<u8>, p: int, layout: u8) -> Step<
    (Option<Seq<u8>>, Option<Seq<u8>>),
> {
    if layout == 0 {
        Step::Done((None, None), p)
    } else if layout == 1 {
        bind(sp_vary_block(s, p), |v: Seq<u8>, q: int| Step::Done((None, Some(v)), q))
    } else if layout == 2 {
        bind(sp_fixed_block(s, p), |f: Seq<u8>, q: int| Step::Done((Some(f), None), q))
    } else {
        bind(
            sp_fixed_block(s, p),
            |f: Seq<u8>, q: int|
                bind(sp_vary_block(s, q), |v: Seq<u8>, r: int| Step::Done((Some(f), Some(v)), r)),
        )
    }
}

/// A subtile: kind, value, an extra byte from version 10 on (read and dropped), the bytes that
/// `flags2` calls for, and the body that the kind calls for.
#[verifier::opaque]
pub open spec fn sp_subtile(s: Seq<u8>, p: int, flags2: u8, version: u32) -> Step<SubtileModel> {
    bind(
        sp_u8(s, p),
        |kind: u8, p1: int|
            bind(
                sp_u8(s, p1),
                |value: u8, p2: int|
                    bind(
                        sp_opt(version >= 10, sp_u8(s, p2), p2),
                        |_extra: Option<u8>, p3: int|
                            match flags2_byte_count(flags2) {
                                None => Step::Fail(TdtErrorKind::UnknownFlags2(flags2)),
                                Some(nb) => bind(
                                    sp_take(s, p3, nb),
                                    |bytes: Seq<u8>, p4: int|
                                        match spec_subtile_body(kind) {
                                            None => Step::Fail(
                                                TdtErrorKind::UnknownSubtileKind(kind),
                                            ),
                                            Some(layout) => bind(
                                                sp_subtile_body(s, p4, layout),
                                                |body: (Option<Seq<u8>>, Option<Seq<u8>>), p5: int|
                                                    Step::Done(
                                                        SubtileModel {
                                                            kind,
                                                            value,
                                                            bytes,
                                                            fixed_block: body.0,
                                                            vary_block: body.1,
                                                        },
                                                        p5,
                                                    ),
                                            ),
                                        },
                                ),
                            },
                    ),
            ),
    )
}

/// Where a subtile's body starts: after its kind and value bytes, the extra byte that version 10
/// on adds, and the bytes that `flags2` calls for.
pub open spec fn subtile_body_start(p: int, flags2: u8, version: u32) -> int {
    p + 2 + (if version >= 10 {
        1int
    } else {
        0int
    }) + match flags2_byte_count(flags2) {
        Some(n) => n as int,
        None => 0int,
    }
}

/// A subtile reads only under a known `flags2` (4 to 7), which calls for five extra bytes when
/// it is 6 and none otherwise. Its blocks follow its kind's body layout: a kind laid out with a fixed block (alone or
/// before a vary block) has the `FIXED_BLOCK_LEN` bytes at the start of the body as its fixed
/// block, and others have none; a kind laid out with a vary block has the bytes after the `u16`
/// length that follows (the body start, or the fixed block) as its vary block, and others have
/// none.
pub proof fn lemma_subtile_blocks(s: Seq<u8>, p: int, flags2: u8, version: u32)
    requires
        0 <= p,
    ensures
        sp_subtile(s, p, flags2, version) matches Step::Done(m, _) ==> {
            let start = subtile_body_start(p, flags2, version);
            let layout = spec_subtile_body(m.kind);
            let vary_at = if layout == Some(3u8) {
                start + FIXED_BLOCK_LEN
            } else {
                start
            };
            &&& m.kind == s[p] && m.value == s[p + 1]
            &&& (flags2 == 4 || flags2 == 5 || flags2 == 6 || flags2 == 7)
            &&& m.bytes.len() == (if flags2 == 6 {
                5int
            } else {
                0int
            })
            &&& (m.fixed_block is Some <==> (layout == Some(2u8) || layout == Some(3u8)))
            &&& (m.vary_block is Some <==> (layout == Some(1u8) || layout == Some(3u8)))
            &&& (m.fixed_block is Some ==> m.fixed_block == Some(
                s.subrange(start, start + FIXED_BLOCK_LEN),
            ))
            &&& (m.vary_block is Some ==> m.vary_block == Some(
                s.subrange(vary_at + 2, vary_at + 2 + le16_at(s, vary_at)),
            ))
        },
{
    reveal(sp_subtile);
    if let Step::Done(m, _) = sp_subtile(s, p, flags2, version) {
        let p3 = if version >= 10 {
            p + 3
        } else {
            p + 2
        };
        let nb = flags2_byte_count(flags2).unwrap();
        let start = p3 + nb;
        assert(start == subtile_body_start(p, flags2, version));
        let layout = spec_subtile_body(s[p]).unwrap();
        assert(sp_subtile_body(s, start, layout) is Done);
    }
}

/// First position at or after `p` holding the little-endian `u16` value `n`.
pub open spec fn find_u16(s: Seq<u8>, p: int, n: u16) -> Option<int>
    decreases s.len() - p,
{
    if p < 0 || p + 2 > s.len() {
        None
    } else if le16_at(s, p) == n {
        Some(p)
    } else {
        find_u16(s, p + 1, n)
    }
}

/// Whether any of the strings is present.
pub open spec fn any_present(xs: Seq<Option<Seq<char>>>) -> bool {
    exists|i: int| 0 <= i < xs.len() && xs[i] is Some
}

/// The trailing section of a tail, which `flags1`, the dimensions and the side ground types
/// shape.
#[verifier::opaque]
pub open spec fn sp_trailing(
    strings: Seq<char>,
    s: Seq<u8>,
    p: int,
    flags1: u8,
    height: u8,
    width: u8,
    gt_present: bool,
) -> Step<TrailingModel> {
    let grid1: nat = ((height as nat) + 1) * ((width as nat) + 1);
    let grid0: nat = (height as nat) * (width as nat);
    bind(
        sp_opt(gt_present, sp_indexed_strings(strings, s, p, grid1), p),
        |gt_grid: Option<Seq<Option<Seq<char>>>>, p1: int|
            bind(
                sp_opt(flags1 & 1 == 1, sp_repeat(bool_item(s), p1, 4), p1),
                |bools0: Option<Seq<bool>>, p2: int|
                    bind(
                        sp_indexed_strings(strings, s, p2, 2),
                        |trailing_strings: Seq<Option<Seq<char>>>, p3: int|
                            bind(
                                sp_repeat(bool_item(s), p3, 3),
                                |tail_bools: Seq<bool>, p4: int|
                                    bind(
                                        sp_opt(
                                            (flags1 >> 3u8) & 1 == 1,
                                            sp_indexed_string(strings, s, p4),
                                            p4,
                                        ),
                                        |string3: Option<Option<Seq<char>>>, p5: int|
                                            bind(
                                                sp_opt(
                                                    (flags1 >> 4u8) & 1 == 1,
                                                    sp_repeat(fixed_block_item(s), p5, grid0),
                                                    p5,
                                                ),
                                                |blocks: Option<Seq<Seq<u8>>>, p6: int|
                                                    bind(
                                                        sp_opt(
                                                            (flags1 >> 5u8) & 1 == 1,
                                                            sp_repeat(u32_item(s), p6, grid0),
                                                            p6,
                                                        ),
                                                        |floats: Option<Seq<u32>>, p7: int|
                                                            Step::Done(
                                                                TrailingModel {
                                                                    flags1_1_strings: gt_grid,
                                                                    flags1_0_bools: bools0,
                                                                    strings: trailing_strings,
                                                                    tail_bools,
                                                                    flags1_3_string: flatten(
                                                                        string3,
                                                                    ),
                                                                    flags1_4_blocks: blocks,
                                                                    flags1_5_floats: floats,
                                                                },
                                                                p7,
                                                            ),
                                                    ),
                                            ),
                                    ),
                            ),
                    ),
            ),
    )
}

/// Number of subtiles of a tile with these dimensions.
pub open spec fn subtile_count(dims: Seq<u8>) -> u16 {
    ((dims[0] as nat) * (dims[1] as nat)) as u16
}

/// The tail after its fixed-size head: the flag bytes up to the subtile count, which must
/// equal the number of grid cells; the subtiles; and the trailing section.
#[verifier::opaque]
pub open spec fn sp_tail_body(
    strings: Seq<char>,
    version: u32,
    s: Seq<u8>,
    p: int,
    side_ets: Seq<Option<Seq<char>>>,
    dims: Seq<u8>,
    side_gts: Seq<Option<Seq<char>>>,
    dims2: Seq<u8>,
    dims3: Seq<u8>,
    side_offsets: Seq<u8>,
    flags1: u8,
    flags2: u8,
) -> Step<TailModel> {
    let n = subtile_count(dims);
    match find_u16(s, p, n) {
        None => Step::Fail(TdtErrorKind::SubtileCountNotFound),
        Some(q) => bind(
            sp_repeat(subtile_item(s, flags2, version), q + 2, n as nat),
            |subtiles: Seq<SubtileModel>, p9: int|
                bind(
                    sp_trailing(strings, s, p9, flags1, dims[0], dims[1], any_present(side_gts)),
                    |trailing: TrailingModel, p10: int|
                        Step::Done(
                            TailModel {
                                side_ets,
                                dims,
                                side_gts,
                                dims2,
                                dims3,
                                side_offsets,
                                flags1,
                                flags2,
                                flags_rest: s.subrange(p, q),
                                subtiles,
                                trailing,
                            },
                            p10,
                        ),
                ),
        ),
    }
}

/// The tail of a tile: side edge types, dimensions, side ground types, more dimensions, side
/// offsets, two flag bytes, then the body.
#[verifier::opaque]
pub open spec fn sp_tail(strings: Seq<char>, version: u32, s: Seq<u8>, p: int) -> Step<TailModel> {
    bind(
        sp_indexed_strings(strings, s, p, 4),
        |side_ets: Seq<Option<Seq<char>>>, p1: int|
            bind(
                sp_take(s, p1, 2),
                |dims: Seq<u8>, p2: int|
                    bind(
                        sp_indexed_strings(strings, s, p2, 4),
                        |side_gts: Seq<Option<Seq<char>>>, p3: int|
                            bind(
                                sp_take(s, p3, 2),
                                |dims2: Seq<u8>, p4: int|
                                    bind(
                                        sp_take(s, p4, 2),
                                        |dims3: Seq<u8>, p5: int|
                                            bind(
                                                sp_take(s, p5, 8),
                                                |side_offsets: Seq<u8>, p6: int|
                                                    bind(
                                                        sp_u8(s, p6),
                                                        |flags1: u8, p7: int|
                                                            bind(
                                                                sp_u8(s, p7),
                                                                |flags2: u8, p8: int|
                                                                    sp_tail_body(
                                                                        strings,
                                                                        version,
                                                                        s,
                                                                        p8,
                                                                        side_ets,
                                                                        dims,
                                                                        side_gts,
                                                                        dims2,
                                                                        dims3,
                                                                        side_offsets,
                                                                        flags1,
                                                                        flags2,
                                                                    ),
                                                            ),
                                                    ),
                                            ),
                                    ),
                            ),
                    ),
            ),
    )
}

/// A whole `.tdt` file: version, strings section, header, a tail where the header flags call
/// for one, and nothing after it.
pub open spec fn sp_tdt_file(s: Seq<u8>) -> Step<TDTFileModel> {
    bind(
        sp_u32(s, 0),
        |version: u32, p1: int|
            bind(
                sp_strings_section(s, p1),
                |strings: Seq<char>, p2: int|
                    bind(
                        sp_header(strings, s, p2),
                        |header: HeaderModel, p3: int|
                            bind(
                                sp_opt(has_tail(header.flags), sp_tail(strings, version, s, p3), p3),
                                |tail: Option<TailModel>, p4: int|
                                    if p4 == s.len() {
                                        Step::Done(TDTFileModel { version, strings, header, tail }, p4)
                                    } else {
                                        Step::Fail(TdtErrorKind::TrailingBytes)
                                    },
                            ),
                    ),
            ),
    )
}

/// The version that a parse failure reports: the leading `u32`, where the input has one.
pub open spec fn failure_version(s: Seq<u8>) -> Option<u32> {
    if s.len() >= 4 {
        Some(le32_at(s, 0))
    } else {
        None
    }
}

/// Once a repetition stops (fails or panics), more repetitions stop the same way.
pub proof fn lemma_repeat_stuck<T>(item: spec_fn(int) -> Step<T>, p: int, i: nat, n: nat)
    requires
        i <= n,
        !(sp_repeat(item, p, i) is Done),
    ensures
        sp_repeat(item, p, n) == sp_repeat(item, p, i),
    decreases n - i,
{
    if i < n {
        lemma_repeat_stuck(item, p, i, (n - 1) as nat);
    }
}

/// Where `find_u16` finds the value, the value stands there.
pub proof fn lemma_find_u16(s: Seq<u8>, p: int, n: u16)
    requires
        find_u16(s, p, n) is Some,
    ensures
        p <= find_u16(s, p, n).unwrap(),
        find_u16(s, p, n).unwrap() + 2 <= s.len(),
        le16_at(s, find_u16(s, p, n).unwrap()) == n,
    decreases s.len() - p,
{
    if p >= 0 && p + 2 <= s.len() && le16_at(s, p) != n {
        lemma_find_u16(s, p + 1, n);
    }
}

} // verus!
