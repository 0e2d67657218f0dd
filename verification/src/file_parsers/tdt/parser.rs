//! Reading `.tdt` files: each reader follows the grammar of the same name.
use vstd::prelude::*;
use crate::bytes::{copy_range, le16_at, le32_at, read_u16_le, read_u32_le};
use crate::utf16::{decode_utf16, decode_utf16_units, le_units, string_from_chars};
use super::grammar::{
    agrees, any_present, bind, bool_item, char_at_byte, failure_version, find_u16,
    first_nul_from, fixed_block_item, lemma_find_u16, flags2_byte_count, flatten, has_num, has_tail, has_tgt,
    indexed_string_item, is_tail_flag, lemma_repeat_stuck, sp_bool, sp_fixed_block, sp_header,
    sp_indexed_string, sp_indexed_strings, sp_lookup, sp_opt, sp_repeat, sp_strings_section,
    sp_subtile, sp_subtile_body, sp_tail, sp_tail_body, sp_take, sp_tdt_file, sp_trailing,
    sp_u16, sp_u32, sp_u8, sp_vary_block, spec_subtile_body, starts_char, subtile_count,
    subtile_item, u32_item, utf8_len, utf8_width, Step, Stop, TdtErrorKind,
};
use super::types::{
    Header, HeaderModel, Subtile, SubtileModel, Tail, TailModel, TDTFile, TDTFileModel,
    Trailing, TrailingModel, FIXED_BLOCK_LEN,
};

verus! {

/// Result of a reader: the value and the position after it.
pub type Read<T> = Result<(T, usize), Stop>;

fn read_u8(s: &[u8], p: usize) -> (r: Read<u8>)
    requires
        p <= s@.len(),
    ensures
        agrees(r, sp_u8(s@, p as int)),
        r matches Ok((_, q)) ==> q <= s@.len(),
{
    if p < s.len() {
        Ok((s[p], p + 1))
    } else {
        Err(Stop::Error(TdtErrorKind::Incomplete))
    }
}

fn read_u16(s: &[u8], p: usize) -> (r: Read<u16>)
    requires
        p <= s@.len(),
    ensures
        agrees(r, sp_u16(s@, p as int)),
        r matches Ok((_, q)) ==> q <= s@.len(),
{
    if s.len() - p >= 2 {
        Ok((read_u16_le(s, p), p + 2))
    } else {
        Err(Stop::Error(TdtErrorKind::Incomplete))
    }
}

fn read_u32(s: &[u8], p: usize) -> (r: Read<u32>)
    requires
        p <= s@.len(),
    ensures
        agrees(r, sp_u32(s@, p as int)),
        r matches Ok((_, q)) ==> q <= s@.len(),
{
    if s.len() - p >= 4 {
        Ok((read_u32_le(s, p), p + 4))
    } else {
        Err(Stop::Error(TdtErrorKind::Incomplete))
    }
}

fn read_bool(s: &[u8], p: usize) -> (r: Read<bool>)
    requires
        p <= s@.len(),
    ensures
        agrees(r, sp_bool(s@, p as int)),
        r matches Ok((_, q)) ==> q <= s@.len(),
{
    if p < s.len() {
        let b = s[p];
        if b == 0 {
            Ok((false, p + 1))
        } else if b == 1 {
            Ok((true, p + 1))
        } else {
            Err(Stop::Error(TdtErrorKind::InvalidBool(b)))
        }
    } else {
        Err(Stop::Error(TdtErrorKind::Incomplete))
    }
}

fn read_bytes(s: &[u8], p: usize, n: usize) -> (r: Read<Vec<u8>>)
    requires
        p <= s@.len(),
    ensures
        agrees(r, sp_take(s@, p as int, n as nat)),
        r matches Ok((_, q)) ==> q <= s@.len(),
{
    if n <= s.len() - p {
        let v = copy_range(s, p, p + n);
        assert(v.deep_view() =~= v@);
        Ok((v, p + n))
    } else {
        Err(Stop::Error(TdtErrorKind::Incomplete))
    }
}

/// The strings section, decoded.
fn strings_section(s: &[u8], p: usize) -> (r: Read<Vec<char>>)
    requires
        p <= s@.len(),
    ensures
        agrees(r, sp_strings_section(s@, p as int)),
        r matches Ok((_, q)) ==> q <= s@.len(),
{
    reveal(sp_strings_section);
    let (n, q) = match read_u32(s, p) {
        Ok(x) => x,
        Err(e) => {
            return Err(e);
        },
    };
    let n = n as usize;
    if n > (s.len() - q) / 2 {
        return Err(Stop::Error(TdtErrorKind::Incomplete));
    }
    let ghost region = s@.subrange(q as int, q + 2 * n);
    let mut units: Vec<u16> = Vec::new();
    let mut i: usize = 0;
    while i < n
        invariant
            q + 2 * n <= s.len(),
            s@.len() == s.len(),
            i <= n,
            region == s@.subrange(q as int, q + 2 * n),
            units@ == le_units(region).take(i as int),
        decreases n - i,
    {
        let u = read_u16_le(s, q + 2 * i);
        assert(le_units(region)[i as int] == u);
        units.push(u);
        i = i + 1;
        assert(units@ =~= le_units(region).take(i as int));
    }
    assert(units@ =~= le_units(region));
    match decode_utf16_units(units.as_slice()) {
        Some(chars) => {
            assert(chars.deep_view() =~= chars@);
            Ok((chars, q + 2 * n))
        },
        None => Err(Stop::Error(TdtErrorKind::InvalidUtf16)),
    }
}

fn utf8_width_of(c: char) -> (w: u64)
    ensures
        w == utf8_width(c),
{
    let x = c as u32;
    if x < 0x80 {
        1
    } else if x < 0x800 {
        2
    } else if x < 0x10000 {
        3
    } else {
        4
    }
}

proof fn lemma_utf8_len_take_step(s: Seq<char>, k: int)
    requires
        0 <= k < s.len(),
    ensures
        utf8_len(s.take(k + 1)) == utf8_len(s.take(k)) + utf8_width(s[k]),
{
    assert(s.take(k + 1).drop_last() =~= s.take(k));
}

proof fn lemma_utf8_len_take_mono(s: Seq<char>, a: int, b: int)
    requires
        0 <= a < b <= s.len(),
    ensures
        utf8_len(s.take(a)) < utf8_len(s.take(b)),
    decreases b - a,
{
    lemma_utf8_len_take_step(s, b - 1);
    if a < b - 1 {
        lemma_utf8_len_take_mono(s, a, b - 1);
    }
}

/// Resolves a string index against the decoded strings section.
fn lookup_string(strings: &Vec<char>, i: u32, q: usize) -> (r: Read<Option<String>>)
    ensures
        agrees(r, sp_lookup(strings@, i, q as int)),
{
    if i == u32::MAX {
        return Ok((None, q));
    }
    let ghost cs = strings@;
    let target = i as u64;
    let mut k: usize = 0;
    let mut acc: u64 = 0;
    assert(cs.take(0) =~= Seq::<char>::empty());
    while k < strings.len() && acc < target
        invariant
            cs == strings@,
            target == i,
            k <= strings.len(),
            acc == utf8_len(cs.take(k as int)),
            acc < target + 4,
            k > 0 ==> utf8_len(cs.take(k - 1)) < target,
        decreases strings.len() - k,
    {
        proof {
            lemma_utf8_len_take_step(cs, k as int);
        }
        acc = acc + utf8_width_of(strings[k]);
        k = k + 1;
    }
    assert(cs.take(cs.len() as int) =~= cs);
    if k == strings.len() && acc <= target {
        return Err(Stop::Error(TdtErrorKind::StringIndexOutOfBounds));
    }
    if acc > target {
        proof {
            if k == strings.len() {
                assert(utf8_len(cs) == acc);
            } else {
                lemma_utf8_len_take_mono(cs, k as int, cs.len() as int);
            }
            assert forall|k2: int| !starts_char(cs, k2, i as int) by {
                if starts_char(cs, k2, i as int) {
                    if k2 < k {
                        if k2 < k - 1 {
                            lemma_utf8_len_take_mono(cs, k2, k - 1);
                        }
                    } else if k2 > k {
                        lemma_utf8_len_take_mono(cs, k as int, k2);
                    }
                }
            }
            assert(char_at_byte(cs, i as int) is None);
        }
        return Err(Stop::SplitChar);
    }
    proof {
        lemma_utf8_len_take_mono(cs, k as int, cs.len() as int);
        assert(starts_char(cs, k as int, i as int));
        let k2 = choose|k2: int| starts_char(cs, k2, i as int);
        if k2 < k {
            lemma_utf8_len_take_mono(cs, k2, k as int);
        } else if k2 > k {
            lemma_utf8_len_take_mono(cs, k as int, k2);
        }
        assert(char_at_byte(cs, i as int) == Some(k as int));
    }
    let mut j = k;
    while j < strings.len() && strings[j] != '\0'
        invariant
            cs == strings@,
            k <= j <= strings.len(),
            k < strings.len(),
            first_nul_from(cs, k as int) == first_nul_from(cs, j as int),
        decreases strings.len() - j,
    {
        j = j + 1;
    }
    if j == strings.len() {
        Err(Stop::Error(TdtErrorKind::MissingNullTerminator))
    } else if j == k {
        Ok((None, q))
    } else {
        let sub = &strings.as_slice()[k..j];
        Ok((Some(string_from_chars(sub)), q))
    }
}

/// A `u32` string index, resolved against the strings section.
fn indexed_string(strings: &Vec<char>, s: &[u8], p: usize) -> (r: Read<Option<String>>)
    requires
        p <= s@.len(),
    ensures
        agrees(r, sp_indexed_string(strings@, s@, p as int)),
        r matches Ok((_, q)) ==> q <= s@.len(),
{
    let (i, q) = match read_u32(s, p) {
        Ok(x) => x,
        Err(e) => {
            return Err(e);
        },
    };
    lookup_string(strings, i, q)
}

/// `n` indexed strings.
fn indexed_strings(strings: &Vec<char>, s: &[u8], p: usize, n: usize) -> (r: Read<
    Vec<Option<String>>,
>)
    requires
        p <= s@.len(),
    ensures
        agrees(r, sp_indexed_strings(strings@, s@, p as int, n as nat)),
        r matches Ok((v, q)) ==> q <= s@.len() && v@.len() == n,
{
    let ghost item = indexed_string_item(strings@, s@);
    let mut out: Vec<Option<String>> = Vec::new();
    let mut pos = p;
    let mut i: usize = 0;
    assert(out.deep_view() =~= Seq::<Option<Seq<char>>>::empty());
    while i < n
        invariant
            item == indexed_string_item(strings@, s@),
            i <= n,
            pos <= s@.len(),
            out@.len() == i,
            sp_repeat(item, p as int, i as nat) == Step::Done(out.deep_view(), pos as int),
        decreases n - i,
    {
        let ghost before = out.deep_view();
        proof {
            if sp_indexed_string(strings@, s@, pos as int) is Abort {
                lemma_repeat_stuck(item, p as int, (i + 1) as nat, n as nat);
            }
        }
        let res = indexed_string(strings, s, pos);
        match res {
            Ok((x, q)) => {
                out.push(x);
                pos = q;
                i = i + 1;
                assert(out.deep_view() =~= before.push(x.deep_view()));
            },
            Err(e) => {
                proof {
                    lemma_repeat_stuck(item, p as int, (i + 1) as nat, n as nat);
                }
                return Err(e);
            },
        }
    }
    Ok((out, pos))
}

fn array2<T>(v: Vec<T>) -> (a: [T; 2])
    requires
        v@.len() == 2,
    ensures
        a@ == v@,
{
    let ghost old_v = v@;
    let mut v = v;
    let y = v.pop().unwrap();
    let x = v.pop().unwrap();
    let r = [x, y];
    assert(r@ =~= old_v);
    r
}

fn array3<T>(v: Vec<T>) -> (a: [T; 3])
    requires
        v@.len() == 3,
    ensures
        a@ == v@,
{
    let ghost old_v = v@;
    let mut v = v;
    let z = v.pop().unwrap();
    let y = v.pop().unwrap();
    let x = v.pop().unwrap();
    let r = [x, y, z];
    assert(r@ =~= old_v);
    r
}

fn array4<T>(v: Vec<T>) -> (a: [T; 4])
    requires
        v@.len() == 4,
    ensures
        a@ == v@,
{
    let ghost old_v = v@;
    let mut v = v;
    let d = v.pop().unwrap();
    let c = v.pop().unwrap();
    let b = v.pop().unwrap();
    let a = v.pop().unwrap();
    let r = [a, b, c, d];
    assert(r@ =~= old_v);
    r
}

/// `n` raw bytes as a two-byte array.
fn read_pair(s: &[u8], p: usize) -> (r: Read<[u8; 2]>)
    requires
        p <= s@.len(),
    ensures
        agrees(r, sp_take(s@, p as int, 2)),
        r matches Ok((_, q)) ==> q <= s@.len(),
{
    if s.len() - p >= 2 {
        let a = [s[p], s[p + 1]];
        assert(a.deep_view() =~= s@.subrange(p as int, p + 2));
        Ok((a, p + 2))
    } else {
        Err(Stop::Error(TdtErrorKind::Incomplete))
    }
}

/// Eight raw bytes as an array.
fn read_eight(s: &[u8], p: usize) -> (r: Read<[u8; 8]>)
    requires
        p <= s@.len(),
    ensures
        agrees(r, sp_take(s@, p as int, 8)),
        r matches Ok((_, q)) ==> q <= s@.len(),
{
    if s.len() - p >= 8 {
        let a = [s[p], s[p + 1], s[p + 2], s[p + 3], s[p + 4], s[p + 5], s[p + 6], s[p + 7]];
        assert(a.deep_view() =~= s@.subrange(p as int, p + 8));
        Ok((a, p + 8))
    } else {
        Err(Stop::Error(TdtErrorKind::Incomplete))
    }
}

/// An indexed string that is present only when `cond` holds.
fn opt_indexed_string(cond: bool, strings: &Vec<char>, s: &[u8], p: usize) -> (r: Read<
    Option<Option<String>>,
>)
    requires
        p <= s@.len(),
    ensures
        agrees(r, sp_opt(cond, sp_indexed_string(strings@, s@, p as int), p as int)),
        r matches Ok((_, q)) ==> q <= s@.len(),
{
    if cond {
        match indexed_string(strings, s, p) {
            Ok((x, q)) => Ok((Some(x), q)),
            Err(e) => Err(e),
        }
    } else {
        Ok((None, p))
    }
}

fn flatten_string(o: Option<Option<String>>) -> (r: Option<String>)
    ensures
        r.deep_view() == flatten(o.deep_view()),
{
    match o {
        Some(Some(x)) => Some(x),
        _ => None,
    }
}

fn is_tail_flag_exec(f: u8) -> (r: bool)
    ensures
        r == is_tail_flag(f),
{
    f == 8 || f == 9 || f == 0xa || f == 0x1a || f == 0x18 || f == 0x2a || f == 0x1c || f == 0x1e
}

fn has_tail_exec(flags: Option<u8>) -> (r: bool)
    ensures
        r == has_tail(flags),
{
    match flags {
        None => true,
        Some(f) => is_tail_flag_exec(f),
    }
}

/// The header of a tile.
fn header(strings: &Vec<char>, s: &[u8], p: usize) -> (r: Read<Header>)
    requires
        p <= s@.len(),
    ensures
        agrees(r, sp_header(strings@, s@, p as int)),
        r matches Ok((_, q)) ==> q <= s@.len(),
{
    reveal(sp_header);
    let (tdt_file, p1) = match indexed_string(strings, s, p) {
        Ok(x) => x,
        Err(e) => {
            return Err(e);
        },
    };
    let (flags, p2) = if tdt_file.is_some() {
        match read_u8(s, p1) {
            Ok((f, q)) => (Some(f), q),
            Err(e) => {
                return Err(e);
            },
        }
    } else {
        (None, p1)
    };
    let want_num = match flags {
        Some(f) => f == 1 || f == 2,
        None => false,
    };
    assert(want_num == has_num(flags));
    let (num, p3) = if want_num {
        match read_u16(s, p2) {
            Ok((n, q)) => (Some(n), q),
            Err(e) => {
                return Err(e);
            },
        }
    } else {
        (None, p2)
    };
    let want_tgt = match flags {
        Some(f) => f == 1 || f == 2 || f == 9,
        None => true,
    };
    assert(want_tgt == has_tgt(flags));
    let (tgt, p4) = match opt_indexed_string(want_tgt, strings, s, p3) {
        Ok(x) => x,
        Err(e) => {
            return Err(e);
        },
    };
    let want_tag = has_tail_exec(flags);
    let (tag, p5) = match opt_indexed_string(want_tag, strings, s, p4) {
        Ok(x) => x,
        Err(e) => {
            return Err(e);
        },
    };
    let h = Header {
        tdt_file,
        flags,
        num,
        tgt_file: flatten_string(tgt),
        tag: flatten_string(tag),
    };
    Ok((h, p5))
}

fn fixed_block(s: &[u8], p: usize) -> (r: Read<Vec<u8>>)
    requires
        p <= s@.len(),
    ensures
        agrees(r, sp_fixed_block(s@, p as int)),
        r matches Ok((_, q)) ==> q <= s@.len(),
{
    read_bytes(s, p, FIXED_BLOCK_LEN)
}

fn vary_block(s: &[u8], p: usize) -> (r: Read<Vec<u8>>)
    requires
        p <= s@.len(),
    ensures
        agrees(r, sp_vary_block(s@, p as int)),
        r matches Ok((_, q)) ==> q <= s@.len(),
{
    match read_u16(s, p) {
        Ok((n, q)) => read_bytes(s, q, n as usize),
        Err(e) => Err(e),
    }
}

/// Number of extra subtile bytes for a value of `flags2`, where the layout is known.
fn flags2_bytes(flags2: u8) -> (r: Option<usize>)
    ensures
        match r {
            Some(n) => flags2_byte_count(flags2) == Some(n as nat),
            None => flags2_byte_count(flags2) is None,
        },
{
    if flags2 == 4 || flags2 == 5 || flags2 == 7 {
        Some(0)
    } else if flags2 == 6 {
        Some(5)
    } else {
        None
    }
}

/// Body layout of a subtile kind: 0 nothing, 1 a vary block, 2 a fixed block, 3 both.
fn subtile_body_layout(kind: u8) -> (r: Option<u8>)
    ensures
        r == spec_subtile_body(kind),
{
    match kind {
        0x50u8 | 0x07 | 0x20 | 0x0f | 0x1f | 0x2f | 0x3f | 0x4f | 0x5f | 0x6f | 0x7f | 0x8f
        | 0xaf | 0xcf | 0xdf | 0xef | 0xff | 0x3b | 0x5b | 0x7b | 0x9b | 0xcb | 0xeb
        | 0xfb => Some(0u8),
        0x04u8 | 0x24 | 0x44 | 0x64 | 0x84 | 0xa4 | 0xc4 | 0xe4 | 0xed | 0x06 | 0x0d | 0x26
        | 0x46 | 0x66 | 0x86 | 0xa6 | 0xc6 | 0xe6 => Some(1u8),
        0x5du8 | 0x0b | 0x1b | 0x2b | 0x4b | 0x6b | 0xdb | 0xec | 0xe0 | 0x8a | 0x8b | 0x83
        | 0x93 | 0x94 | 0x97 | 0x9f | 0x03 | 0x18 | 0x1e | 0x30 | 0x41 | 0x22 | 0x42 | 0x62
        | 0x82 | 0xa2 | 0xc2 | 0xe2 => Some(2u8),
        0x00u8 | 0x02 | 0x09 => Some(3u8),
        _ => None,
    }
}

fn subtile_body(s: &[u8], p: usize, layout: u8) -> (r: Read<(Option<Vec<u8>>, Option<Vec<u8>>)>)
    requires
        p <= s@.len(),
    ensures
        agrees(r, sp_subtile_body(s@, p as int, layout)),
        r matches Ok((_, q)) ==> q <= s@.len(),
{
    if layout == 0 {
        Ok(((None, None), p))
    } else if layout == 1 {
        match vary_block(s, p) {
            Ok((v, q)) => Ok(((None, Some(v)), q)),
            Err(e) => Err(e),
        }
    } else if layout == 2 {
        match fixed_block(s, p) {
            Ok((f, q)) => Ok(((Some(f), None), q)),
            Err(e) => Err(e),
        }
    } else {
        match fixed_block(s, p) {
            Ok((f, q)) => match vary_block(s, q) {
                Ok((v, r)) => Ok(((Some(f), Some(v)), r)),
                Err(e) => Err(e),
            },
            Err(e) => Err(e),
        }
    }
}

/// A subtile.
fn subtile(s: &[u8], p: usize, flags2: u8, version: u32) -> (r: Read<Subtile>)
    requires
        p <= s@.len(),
    ensures
        agrees(r, sp_subtile(s@, p as int, flags2, version)),
        r matches Ok((_, q)) ==> q <= s@.len(),
{
    reveal(sp_subtile);
    let (kind, p1) = match read_u8(s, p) {
        Ok(x) => x,
        Err(e) => {
            return Err(e);
        },
    };
    let (value, p2) = match read_u8(s, p1) {
        Ok(x) => x,
        Err(e) => {
            return Err(e);
        },
    };
    let p3 = if version >= 10 {
        match read_u8(s, p2) {
            Ok((_, q)) => q,
            Err(e) => {
                return Err(e);
            },
        }
    } else {
        p2
    };
    let nb = match flags2_bytes(flags2) {
        Some(nb) => nb,
        None => {
            return Err(Stop::Error(TdtErrorKind::UnknownFlags2(flags2)));
        },
    };
    let (bytes, p4) = match read_bytes(s, p3, nb) {
        Ok(x) => x,
        Err(e) => {
            return Err(e);
        },
    };
    let layout = match subtile_body_layout(kind) {
        Some(l) => l,
        None => {
            return Err(Stop::Error(TdtErrorKind::UnknownSubtileKind(kind)));
        },
    };
    let (body, p5) = match subtile_body(s, p4, layout) {
        Ok(x) => x,
        Err(e) => {
            return Err(e);
        },
    };
    let (fixed_block, vary_block) = body;
    assert(bytes.deep_view() =~= bytes@);
    Ok((Subtile { kind, value, bytes, fixed_block, vary_block }, p5))
}

/// `n` boolean bytes.
fn read_bools(s: &[u8], p: usize, n: usize) -> (r: Read<Vec<bool>>)
    requires
        p <= s@.len(),
    ensures
        agrees(r, sp_repeat(bool_item(s@), p as int, n as nat)),
        r matches Ok((v, q)) ==> q <= s@.len() && v@.len() == n,
{
    let ghost item = bool_item(s@);
    let mut out: Vec<bool> = Vec::new();
    let mut pos = p;
    let mut i: usize = 0;
    assert(out.deep_view() =~= Seq::<bool>::empty());
    while i < n
        invariant
            item == bool_item(s@),
            i <= n,
            pos <= s@.len(),
            out@.len() == i,
            sp_repeat(item, p as int, i as nat) == Step::Done(out.deep_view(), pos as int),
        decreases n - i,
    {
        let ghost before = out.deep_view();
        match read_bool(s, pos) {
            Ok((x, q)) => {
                out.push(x);
                pos = q;
                i = i + 1;
                assert(out.deep_view() =~= before.push(x.deep_view()));
            },
            Err(e) => {
                proof {
                    lemma_repeat_stuck(item, p as int, (i + 1) as nat, n as nat);
                }
                return Err(e);
            },
        }
    }
    Ok((out, pos))
}

/// `n` fixed blocks.
fn fixed_blocks(s: &[u8], p: usize, n: usize) -> (r: Read<Vec<Vec<u8>>>)
    requires
        p <= s@.len(),
    ensures
        agrees(r, sp_repeat(fixed_block_item(s@), p as int, n as nat)),
        r matches Ok((v, q)) ==> q <= s@.len() && v@.len() == n,
{
    let ghost item = fixed_block_item(s@);
    let mut out: Vec<Vec<u8>> = Vec::new();
    let mut pos = p;
    let mut i: usize = 0;
    assert(out.deep_view() =~= Seq::<Seq<u8>>::empty());
    while i < n
        invariant
            item == fixed_block_item(s@),
            i <= n,
            pos <= s@.len(),
            out@.len() == i,
            sp_repeat(item, p as int, i as nat) == Step::Done(out.deep_view(), pos as int),
        decreases n - i,
    {
        let ghost before = out.deep_view();
        match fixed_block(s, pos) {
            Ok((x, q)) => {
                out.push(x);
                pos = q;
                i = i + 1;
                assert(out.deep_view() =~= before.push(x.deep_view()));
            },
            Err(e) => {
                proof {
                    lemma_repeat_stuck(item, p as int, (i + 1) as nat, n as nat);
                }
                return Err(e);
            },
        }
    }
    Ok((out, pos))
}

/// `n` little-endian `u32`s.
fn read_u32s(s: &[u8], p: usize, n: usize) -> (r: Read<Vec<u32>>)
    requires
        p <= s@.len(),
    ensures
        agrees(r, sp_repeat(u32_item(s@), p as int, n as nat)),
        r matches Ok((v, q)) ==> q <= s@.len() && v@.len() == n,
{
    let ghost item = u32_item(s@);
    let mut out: Vec<u32> = Vec::new();
    let mut pos = p;
    let mut i: usize = 0;
    assert(out.deep_view() =~= Seq::<u32>::empty());
    while i < n
        invariant
            item == u32_item(s@),
            i <= n,
            pos <= s@.len(),
            out@.len() == i,
            sp_repeat(item, p as int, i as nat) == Step::Done(out.deep_view(), pos as int),
        decreases n - i,
    {
        let ghost before = out.deep_view();
        match read_u32(s, pos) {
            Ok((x, q)) => {
                out.push(x);
                pos = q;
                i = i + 1;
                assert(out.deep_view() =~= before.push(x.deep_view()));
            },
            Err(e) => {
                proof {
                    lemma_repeat_stuck(item, p as int, (i + 1) as nat, n as nat);
                }
                return Err(e);
            },
        }
    }
    Ok((out, pos))
}

/// `n` subtiles.
fn subtiles(s: &[u8], p: usize, n: usize, flags2: u8, version: u32) -> (r: Read<Vec<Subtile>>)
    requires
        p <= s@.len(),
    ensures
        agrees(r, sp_repeat(subtile_item(s@, flags2, version), p as int, n as nat)),
        r matches Ok((v, q)) ==> q <= s@.len() && v@.len() == n,
{
    let ghost item = subtile_item(s@, flags2, version);
    let mut out: Vec<Subtile> = Vec::new();
    let mut pos = p;
    let mut i: usize = 0;
    assert(out.deep_view() =~= Seq::<SubtileModel>::empty());
    while i < n
        invariant
            item == subtile_item(s@, flags2, version),
            i <= n,
            pos <= s@.len(),
            out@.len() == i,
            sp_repeat(item, p as int, i as nat) == Step::Done(out.deep_view(), pos as int),
        decreases n - i,
    {
        let ghost before = out.deep_view();
        match subtile(s, pos, flags2, version) {
            Ok((x, q)) => {
                out.push(x);
                pos = q;
                i = i + 1;
                assert(out.deep_view() =~= before.push(x.deep_view()));
            },
            Err(e) => {
                proof {
                    lemma_repeat_stuck(item, p as int, (i + 1) as nat, n as nat);
                }
                return Err(e);
            },
        }
    }
    Ok((out, pos))
}

/// The first position at or after `p` where the `u16` value `n` stands (looking ahead
/// without consuming).
fn find_count(s: &[u8], p: usize, n: u16) -> (r: Option<usize>)
    requires
        p <= s@.len(),
    ensures
        match r {
            Some(q) => find_u16(s@, p as int, n) == Some(q as int),
            None => find_u16(s@, p as int, n) is None,
        },
{
    let mut q = p;
    while q < s.len()
        invariant
            p <= q <= s@.len(),
            s@.len() == s.len(),
            find_u16(s@, p as int, n) == find_u16(s@, q as int, n),
        decreases s.len() - q,
    {
        if s.len() - q >= 2 && read_u16_le(s, q) == n {
            return Some(q);
        }
        q = q + 1;
    }
    None
}

/// Whether any of the four strings is present.
fn any_present4(xs: &[Option<String>; 4]) -> (r: bool)
    ensures
        r == any_present(xs.deep_view()),
{
    let r = xs[0].is_some() || xs[1].is_some() || xs[2].is_some() || xs[3].is_some();
    proof {
        let v = xs.deep_view();
        if r {
            if xs[0].is_some() {
                assert(v[0] is Some);
            } else if xs[1].is_some() {
                assert(v[1] is Some);
            } else if xs[2].is_some() {
                assert(v[2] is Some);
            } else {
                assert(v[3] is Some);
            }
        } else {
            assert forall|i: int| 0 <= i < v.len() implies !(v[i] is Some) by {
                assert(v[i] == xs@[i].deep_view());
            }
        }
    }
    r
}

/// The trailing section of a tail.
fn trailing(
    strings: &Vec<char>,
    s: &[u8],
    p: usize,
    flags1: u8,
    height: u8,
    width: u8,
    gt_present: bool,
) -> (r: Read<Trailing>)
    requires
        p <= s@.len(),
    ensures
        agrees(r, sp_trailing(strings@, s@, p as int, flags1, height, width, gt_present)),
        r matches Ok((_, q)) ==> q <= s@.len(),
{
    reveal(sp_trailing);
    assert((height as nat + 1) * (width as nat + 1) <= 256 * 256) by (nonlinear_arith)
        requires
            height < 256,
            width < 256,
    ;
    assert((height as nat) * (width as nat) <= 256 * 256) by (nonlinear_arith)
        requires
            height < 256,
            width < 256,
    ;
    let grid1: usize = (height as usize + 1) * (width as usize + 1);
    let grid0: usize = (height as usize) * (width as usize);
    let (gt_grid, p1) = if gt_present {
        match indexed_strings(strings, s, p, grid1) {
            Ok((v, q)) => (Some(v), q),
            Err(e) => {
                return Err(e);
            },
        }
    } else {
        (None, p)
    };
    let (bools0, p2) = if flags1 & 1 == 1 {
        match read_bools(s, p1, 4) {
            Ok((v, q)) => (Some(array4(v)), q),
            Err(e) => {
                return Err(e);
            },
        }
    } else {
        (None, p1)
    };
    let (strings2, p3) = match indexed_strings(strings, s, p2, 2) {
        Ok((v, q)) => (array2(v), q),
        Err(e) => {
            return Err(e);
        },
    };
    let (tail_bools, p4) = match read_bools(s, p3, 3) {
        Ok((v, q)) => (array3(v), q),
        Err(e) => {
            return Err(e);
        },
    };
    let (string3, p5) = match opt_indexed_string((flags1 >> 3u8) & 1 == 1, strings, s, p4) {
        Ok(x) => x,
        Err(e) => {
            return Err(e);
        },
    };
    let (blocks, p6) = if (flags1 >> 4u8) & 1 == 1 {
        match fixed_blocks(s, p5, grid0) {
            Ok((v, q)) => (Some(v), q),
            Err(e) => {
                return Err(e);
            },
        }
    } else {
        (None, p5)
    };
    let (floats, p7) = if (flags1 >> 5u8) & 1 == 1 {
        match read_u32s(s, p6, grid0) {
            Ok((v, q)) => (Some(v), q),
            Err(e) => {
                return Err(e);
            },
        }
    } else {
        (None, p6)
    };
    let tr = Trailing {
        flags1_1_strings: gt_grid,
        flags1_0_bools: bools0,
        strings: strings2,
        tail_bools,
        flags1_3_string: flatten_string(string3),
        flags1_4_blocks: blocks,
        flags1_5_floats: floats,
    };
    Ok((tr, p7))
}

/// The tail of a tile.
fn tail(strings: &Vec<char>, version: u32, s: &[u8], p: usize) -> (r: Read<Tail>)
    requires
        p <= s@.len(),
    ensures
        agrees(r, sp_tail(strings@, version, s@, p as int)),
        r matches Ok((_, q)) ==> q <= s@.len(),
{
    reveal(sp_tail);
    reveal(sp_tail_body);
    let (side_ets, p1) = match indexed_strings(strings, s, p, 4) {
        Ok((v, q)) => (array4(v), q),
        Err(e) => {
            return Err(e);
        },
    };
    let (dims, p2) = match read_pair(s, p1) {
        Ok(x) => x,
        Err(e) => {
            return Err(e);
        },
    };
    let (side_gts, p3) = match indexed_strings(strings, s, p2, 4) {
        Ok((v, q)) => (array4(v), q),
        Err(e) => {
            return Err(e);
        },
    };
    let (dims2, p4) = match read_pair(s, p3) {
        Ok(x) => x,
        Err(e) => {
            return Err(e);
        },
    };
    let (dims3, p5) = match read_pair(s, p4) {
        Ok(x) => x,
        Err(e) => {
            return Err(e);
        },
    };
    let (side_offsets, p6) = match read_eight(s, p5) {
        Ok(x) => x,
        Err(e) => {
            return Err(e);
        },
    };
    let (flags1, p7) = match read_u8(s, p6) {
        Ok(x) => x,
        Err(e) => {
            return Err(e);
        },
    };
    let (flags2, p8) = match read_u8(s, p7) {
        Ok(x) => x,
        Err(e) => {
            return Err(e);
        },
    };
    assert((dims[0] as nat) * (dims[1] as nat) <= 255 * 255) by (nonlinear_arith)
        requires
            dims[0] < 256,
            dims[1] < 256,
    ;
    let n: u16 = (dims[0] as u16) * (dims[1] as u16);
    assert(n == subtile_count(dims.deep_view()));
    let q = match find_count(s, p8, n) {
        Some(q) => q,
        None => {
            return Err(Stop::Error(TdtErrorKind::SubtileCountNotFound));
        },
    };
    proof {
        lemma_find_u16(s@, p8 as int, n);
    }
    assert(q + 2 <= s.len());
    let flags_rest = copy_range(s, p8, q);
    let (subs, p9) = match subtiles(s, q + 2, n as usize, flags2, version) {
        Ok(x) => x,
        Err(e) => {
            return Err(e);
        },
    };
    let gt_present = any_present4(&side_gts);
    let (tr, p10) = match trailing(strings, s, p9, flags1, dims[0], dims[1], gt_present) {
        Ok(x) => x,
        Err(e) => {
            return Err(e);
        },
    };
    let t = Tail {
        side_ets,
        dims,
        side_gts,
        dims2,
        dims3,
        side_offsets,
        flags1,
        flags2,
        flags_rest,
        subtiles: subs,
        trailing: tr,
    };
    Ok((t, p10))
}

/// Reads a whole `.tdt` file, stopping where a string index would cut a character; also gives
/// the file version, which is known once the first four bytes have been read.
fn read_tdt_file(input: &[u8]) -> (r: (Result<TDTFile, Stop>, Option<u32>))
    ensures
        r.1 == failure_version(input@),
        match r.0 {
            Ok(f) => sp_tdt_file(input@) == Step::Done(f.deep_view(), input@.len() as int),
            Err(Stop::Error(e)) => sp_tdt_file(input@) == Step::<TDTFileModel>::Fail(e),
            Err(Stop::SplitChar) => sp_tdt_file(input@) is Abort,
        },
{
    let (version, p1) = match read_u32(input, 0) {
        Ok(x) => x,
        Err(e) => {
            return (Err(e), None);
        },
    };
    let known = Some(version);
    let (chars, p2) = match strings_section(input, p1) {
        Ok(x) => x,
        Err(e) => {
            return (Err(e), known);
        },
    };
    assert(chars.deep_view() =~= chars@);
    let (h, p3) = match header(&chars, input, p2) {
        Ok(x) => x,
        Err(e) => {
            return (Err(e), known);
        },
    };
    let (t, p4) = if has_tail_exec(h.flags) {
        match tail(&chars, version, input, p3) {
            Ok((t, q)) => (Some(t), q),
            Err(e) => {
                return (Err(e), known);
            },
        }
    } else {
        (None, p3)
    };
    if p4 != input.len() {
        return (Err(Stop::Error(TdtErrorKind::TrailingBytes)), known);
    }
    let strings = string_from_chars(chars.as_slice());
    (Ok(TDTFile { version, strings, header: h, tail: t }), known)
}

/// Reads a whole `.tdt` file; also gives the file version, which is known once the first four
/// bytes have been read, whether or not the rest parses.
pub fn tdt_file(input: &[u8]) -> (r: (Result<TDTFile, TdtErrorKind>, Option<u32>))
    requires
        !(sp_tdt_file(input@) is Abort),
    ensures
        r.1 == failure_version(input@),
        match r.0 {
            Ok(f) => sp_tdt_file(input@) == Step::Done(f.deep_view(), input@.len() as int),
            Err(e) => sp_tdt_file(input@) == Step::<TDTFileModel>::Fail(e),
        },
{
    let (res, version) = read_tdt_file(input);
    match res {
        Ok(f) => (Ok(f), version),
        Err(Stop::Error(e)) => (Err(e), version),
        Err(Stop::SplitChar) => (Err(TdtErrorKind::StringIndexOutOfBounds), version),
    }
}

/// Whether reading the file would look a string up at an index inside a character of the
/// strings section, the inputs that [`tdt_file`] and [`parse_tdt_bytes`] are not given.
pub fn tdt_index_cuts_character(input: &[u8]) -> (r: bool)
    ensures
        r == (sp_tdt_file(input@) is Abort),
{
    let (res, _) = read_tdt_file(input);
    match res {
        Err(Stop::SplitChar) => true,
        _ => false,
    }
}

/// A failed `.tdt` parse: why, and the file version where the input has one.
#[derive(Debug, Clone, Copy, PartialEq, Eq)]
pub struct TdtError {
    pub kind: TdtErrorKind,
    pub version: Option<u32>,
}

/// Parses the bytes of a `.tdt` file. Inputs on which the format's string lookup would cut a
/// character in two are outside the domain.
pub fn parse_tdt_bytes(input: &[u8]) -> (r: Result<TDTFile, TdtError>)
    requires
        !(sp_tdt_file(input@) is Abort),
    ensures
        match r {
            Ok(f) => sp_tdt_file(input@) == Step::Done(f.deep_view(), input@.len() as int),
            Err(e) => sp_tdt_file(input@) == Step::<TDTFileModel>::Fail(e.kind) && e.version
                == failure_version(input@),
        },
{
    let (res, version) = tdt_file(input);
    match res {
        Ok(f) => Ok(f),
        Err(kind) => Err(TdtError { kind, version }),
    }
}

} // verus!
