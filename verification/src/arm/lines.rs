//! The grammar of the one-line records of room layout files. Each reader starts at a position
//! of the line (counted in characters) and gives the value read and the position after it.
use vstd::prelude::*;
use crate::fs::cdn::patch_parts::{digits_value, lemma_digits_monotone, all_digits};
use crate::text::chars_of;
use crate::utf16::string_from_chars;
use super::types::{Corner, Dimension, Direction, DoodadConnection, Edge, Slot, SlotK, Thingy, Zone};

verus! {

/// An ASCII digit.
pub open spec fn is_digit(c: char) -> bool {
    '0' <= c <= '9'
}

/// The number of digits from `p` on.
pub open spec fn digit_run(s: Seq<char>, p: int) -> nat
    decreases s.len() - p,
{
    if 0 <= p < s.len() && is_digit(s[p]) {
        1 + digit_run(s, p + 1)
    } else {
        0
    }
}

/// A space or a tab.
pub open spec fn is_blank(c: char) -> bool {
    c == ' ' || c == '\t'
}

/// The number of spaces and tabs from `p` on.
pub open spec fn blank_run(s: Seq<char>, p: int) -> nat
    decreases s.len() - p,
{
    if 0 <= p < s.len() && is_blank(s[p]) {
        1 + blank_run(s, p + 1)
    } else {
        0
    }
}

/// Unicode white space, as `char::is_whitespace` documents it (the `White_Space` property).
pub open spec fn is_white_space(c: char) -> bool {
    ||| ('\u{9}' <= c <= '\u{d}')
    ||| c == ' '
    ||| c == '\u{85}'
    ||| c == '\u{a0}'
    ||| c == '\u{1680}'
    ||| ('\u{2000}' <= c <= '\u{200a}')
    ||| c == '\u{2028}'
    ||| c == '\u{2029}'
    ||| c == '\u{202f}'
    ||| c == '\u{205f}'
    ||| c == '\u{3000}'
}

/// The number of characters before the next white space, from `p` on.
pub open spec fn word_run(s: Seq<char>, p: int) -> nat
    decreases s.len() - p,
{
    if 0 <= p < s.len() && !is_white_space(s[p]) {
        1 + word_run(s, p + 1)
    } else {
        0
    }
}

/// The position of the first `"` at or after `p`, if any.
pub open spec fn next_quote(s: Seq<char>, p: int) -> Option<int>
    decreases s.len() - p,
{
    if p < 0 || p >= s.len() {
        None
    } else if s[p] == '"' {
        Some(p)
    } else {
        next_quote(s, p + 1)
    }
}

/// An unsigned decimal `u32` (nom's `u32`): one or more digits, all taken, whose value fits.
pub open spec fn sp_u32(s: Seq<char>, p: int) -> Option<(u32, int)> {
    let n = digit_run(s, p);
    if n > 0 && digits_value(s.subrange(p, p + n)) <= u32::MAX {
        Some((digits_value(s.subrange(p, p + n)) as u32, p + n))
    } else {
        None
    }
}

/// A signed decimal `i32` (nom's `i32`): an optional `+` or `-`, then one or more digits whose
/// signed value fits.
pub open spec fn sp_i32(s: Seq<char>, p: int) -> Option<(i32, int)> {
    let neg = 0 <= p < s.len() && s[p] == '-';
    let q = if 0 <= p < s.len() && (s[p] == '-' || s[p] == '+') {
        p + 1
    } else {
        p
    };
    let n = digit_run(s, q);
    let v = digits_value(s.subrange(q, q + n));
    if n == 0 {
        None
    } else if neg {
        if v <= 0x8000_0000 {
            Some(((0 - v) as i32, q + n))
        } else {
            None
        }
    } else if v <= 0x7fff_ffff {
        Some((v as i32, q + n))
    } else {
        None
    }
}

/// One or more spaces or tabs.
pub open spec fn sp_space1(s: Seq<char>, p: int) -> Option<int> {
    if blank_run(s, p) > 0 {
        Some(p + blank_run(s, p))
    } else {
        None
    }
}

/// The character `c`.
pub open spec fn sp_char(s: Seq<char>, p: int, c: char) -> Option<int> {
    if 0 <= p < s.len() && s[p] == c {
        Some(p + 1)
    } else {
        None
    }
}

/// A quoted string: `"`, the characters up to the next `"`, and that `"`.
pub open spec fn sp_quoted(s: Seq<char>, p: int) -> Option<(Seq<char>, int)> {
    if 0 <= p < s.len() && s[p] == '"' {
        match next_quote(s, p + 1) {
            Some(q) => Some((s.subrange(p + 1, q), q + 1)),
            None => None,
        }
    } else {
        None
    }
}

/// An unquoted string: one or more characters up to the next white space.
pub open spec fn sp_unquoted(s: Seq<char>, p: int) -> Option<(Seq<char>, int)> {
    let n = word_run(s, p);
    if n > 0 {
        Some((s.subrange(p, p + n), p + n))
    } else {
        None
    }
}

/// A 0/1 boolean.
pub open spec fn sp_bool(s: Seq<char>, p: int) -> Option<(bool, int)> {
    match sp_u32(s, p) {
        Some((0, q)) => Some((false, q)),
        Some((1, q)) => Some((true, q)),
        _ => None,
    }
}

proof fn lemma_run_bounds(s: Seq<char>, p: int)
    requires
        0 <= p <= s.len(),
    ensures
        p + digit_run(s, p) <= s.len(),
        p + blank_run(s, p) <= s.len(),
        p + word_run(s, p) <= s.len(),
        forall|i: int| p <= i < p + digit_run(s, p) ==> is_digit(#[trigger] s[i]),
        p + digit_run(s, p) < s.len() ==> !is_digit(s[p + digit_run(s, p)]),
        forall|i: int| p <= i < p + blank_run(s, p) ==> is_blank(#[trigger] s[i]),
        p + blank_run(s, p) < s.len() ==> !is_blank(s[p + blank_run(s, p)]),
        forall|i: int| p <= i < p + word_run(s, p) ==> !is_white_space(#[trigger] s[i]),
        p + word_run(s, p) < s.len() ==> is_white_space(s[p + word_run(s, p)]),
    decreases s.len() - p,
{
    if p < s.len() {
        lemma_run_bounds(s, p + 1);
    }
}

/// The number of digits from `p` on.
fn digits_at(s: &[char], p: usize) -> (n: usize)
    requires
        p <= s@.len(),
    ensures
        n == digit_run(s@, p as int),
{
    let mut q = p;
    proof {
        lemma_run_bounds(s@, p as int);
    }
    while q < s.len() && '0' <= s[q] && s[q] <= '9'
        invariant
            p <= q <= s@.len(),
            digit_run(s@, p as int) == (q - p) + digit_run(s@, q as int),
        decreases s@.len() - q,
    {
        q = q + 1;
    }
    q - p
}

/// The number of spaces and tabs from `p` on.
fn blanks_at(s: &[char], p: usize) -> (n: usize)
    requires
        p <= s@.len(),
    ensures
        n == blank_run(s@, p as int),
{
    let mut q = p;
    while q < s.len() && (s[q] == ' ' || s[q] == '\t')
        invariant
            p <= q <= s@.len(),
            blank_run(s@, p as int) == (q - p) + blank_run(s@, q as int),
        decreases s@.len() - q,
    {
        q = q + 1;
    }
    q - p
}

/// Whether `c` is Unicode white space.
fn white_space(c: char) -> (r: bool)
    ensures
        r == is_white_space(c),
{
    ('\u{9}' <= c && c <= '\u{d}') || c == ' ' || c == '\u{85}' || c == '\u{a0}' || c == '\u{1680}'
        || ('\u{2000}' <= c && c <= '\u{200a}') || c == '\u{2028}' || c == '\u{2029}' || c
        == '\u{202f}' || c == '\u{205f}' || c == '\u{3000}'
}

/// The number of characters before the next white space, from `p` on.
fn word_at(s: &[char], p: usize) -> (n: usize)
    requires
        p <= s@.len(),
    ensures
        n == word_run(s@, p as int),
{
    let mut q = p;
    while q < s.len() && !white_space(s[q])
        invariant
            p <= q <= s@.len(),
            word_run(s@, p as int) == (q - p) + word_run(s@, q as int),
        decreases s@.len() - q,
    {
        q = q + 1;
    }
    q - p
}

/// The value of the digits `s[p..p + n]`, if it fits in a `u64`.
fn digits_value_at(s: &[char], p: usize, n: usize) -> (r: Option<u64>)
    requires
        p + n <= s@.len(),
        forall|i: int| p <= i < p + n ==> is_digit(#[trigger] s@[i]),
    ensures
        match r {
            Some(v) => v == digits_value(s@.subrange(p as int, p + n)),
            None => digits_value(s@.subrange(p as int, p + n)) > u64::MAX,
        },
{
    let len = s.len();
    let ghost d = s@.subrange(p as int, p + n);
    assert(all_digits(d));
    let mut value: u64 = 0;
    let mut i: usize = 0;
    assert(d.take(0) =~= Seq::<char>::empty());
    while i < n
        invariant
            i <= n,
            p + n <= s@.len(),
            len == s@.len(),
            d == s@.subrange(p as int, p + n),
            all_digits(d),
            value == digits_value(d.take(i as int)),
        decreases n - i,
    {
        let c = s[p + i];
        assert(d[i as int] == c);
        assert(d.take(i + 1).drop_last() =~= d.take(i as int));
        let digit: u64 = (c as u32 - 48) as u64;
        let next = match value.checked_mul(10) {
            Some(t) => t.checked_add(digit),
            None => None,
        };
        match next {
            Some(v) => {
                value = v;
            },
            None => {
                proof {
                    lemma_digits_monotone(d, i + 1, n as int);
                    assert(d.take(n as int) =~= d);
                }
                return None;
            },
        }
        i = i + 1;
    }
    assert(d.take(n as int) =~= d);
    Some(value)
}

/// Reads an unsigned decimal `u32` at `p`.
pub fn u32_at(s: &[char], p: usize) -> (r: Option<(u32, usize)>)
    requires
        p <= s@.len(),
    ensures
        match r {
            Some((v, q)) => sp_u32(s@, p as int) == Some((v, q as int)),
            None => sp_u32(s@, p as int) is None,
        },
{
    let len = s.len();
    let n = digits_at(s, p);
    proof {
        lemma_run_bounds(s@, p as int);
    }
    if n == 0 {
        return None;
    }
    match digits_value_at(s, p, n) {
        Some(v) => {
            if v <= 0xffff_ffff {
                Some((v as u32, p + n))
            } else {
                None
            }
        },
        None => None,
    }
}

/// Reads a signed decimal `i32` at `p`.
pub fn i32_at(s: &[char], p: usize) -> (r: Option<(i32, usize)>)
    requires
        p <= s@.len(),
    ensures
        match r {
            Some((v, q)) => sp_i32(s@, p as int) == Some((v, q as int)),
            None => sp_i32(s@, p as int) is None,
        },
{
    let len = s.len();
    let neg = p < s.len() && s[p] == '-';
    let q = if p < s.len() && (s[p] == '-' || s[p] == '+') {
        p + 1
    } else {
        p
    };
    let n = digits_at(s, q);
    proof {
        lemma_run_bounds(s@, q as int);
    }
    if n == 0 {
        return None;
    }
    match digits_value_at(s, q, n) {
        Some(v) => {
            if neg {
                if v <= 0x8000_0000 {
                    let w = (0 - (v as i64)) as i32;
                    Some((w, q + n))
                } else {
                    None
                }
            } else if v <= 0x7fff_ffff {
                Some((v as i32, q + n))
            } else {
                None
            }
        },
        None => None,
    }
}

/// Reads one or more spaces or tabs at `p`.
pub fn space1_at(s: &[char], p: usize) -> (r: Option<usize>)
    requires
        p <= s@.len(),
    ensures
        match r {
            Some(q) => sp_space1(s@, p as int) == Some(q as int),
            None => sp_space1(s@, p as int) is None,
        },
{
    let len = s.len();
    let n = blanks_at(s, p);
    proof {
        lemma_run_bounds(s@, p as int);
    }
    if n > 0 {
        Some(p + n)
    } else {
        None
    }
}

/// Reads the character `c` at `p`.
pub fn char_at(s: &[char], p: usize, c: char) -> (r: Option<usize>)
    requires
        p <= s@.len(),
    ensures
        match r {
            Some(q) => sp_char(s@, p as int, c) == Some(q as int),
            None => sp_char(s@, p as int, c) is None,
        },
{
    if p < s.len() && s[p] == c {
        Some(p + 1)
    } else {
        None
    }
}

/// The characters `s[p..q]` as a string.
fn substring(s: &[char], p: usize, q: usize) -> (r: String)
    requires
        p <= q <= s@.len(),
    ensures
        r@ == s@.subrange(p as int, q as int),
{
    string_from_chars(&s[p..q])
}

/// Reads a quoted string at `p`.
pub fn quoted_at(s: &[char], p: usize) -> (r: Option<(String, usize)>)
    requires
        p <= s@.len(),
    ensures
        match r {
            Some((v, q)) => sp_quoted(s@, p as int) == Some((v@, q as int)),
            None => sp_quoted(s@, p as int) is None,
        },
{
    if !(p < s.len() && s[p] == '"') {
        return None;
    }
    let mut q = p + 1;
    while q < s.len() && s[q] != '"'
        invariant
            p + 1 <= q <= s@.len(),
            next_quote(s@, p + 1) == next_quote(s@, q as int),
        decreases s@.len() - q,
    {
        q = q + 1;
    }
    if q < s.len() {
        let text = substring(s, p + 1, q);
        Some((text, q + 1))
    } else {
        None
    }
}

/// Reads an unquoted string at `p`.
pub fn unquoted_at(s: &[char], p: usize) -> (r: Option<(String, usize)>)
    requires
        p <= s@.len(),
    ensures
        match r {
            Some((v, q)) => sp_unquoted(s@, p as int) == Some((v@, q as int)),
            None => sp_unquoted(s@, p as int) is None,
        },
{
    let len = s.len();
    let n = word_at(s, p);
    proof {
        lemma_run_bounds(s@, p as int);
    }
    if n > 0 {
        let text = substring(s, p, p + n);
        Some((text, p + n))
    } else {
        None
    }
}

/// Parses a 0/1 as a bool
pub fn bool_at(s: &[char], p: usize) -> (r: Option<(bool, usize)>)
    requires
        p <= s@.len(),
    ensures
        match r {
            Some((v, q)) => sp_bool(s@, p as int) == Some((v, q as int)),
            None => sp_bool(s@, p as int) is None,
        },
{
    match u32_at(s, p) {
        Some((0, q)) => Some((false, q)),
        Some((1, q)) => Some((true, q)),
        _ => None,
    }
}

/// Reading a record that may refer to the file's string table.
pub enum LineStep<T> {
    /// The value read and the position after it
    Done(T, int),
    /// The text does not match
    Fail,
    /// A reference past the string table, or a bad corner index: reading panics there
    Abort,
}

/// `n` unsigned numbers, each followed by a space.
pub open spec fn sp_u32_list(s: Seq<char>, p: int, n: nat) -> Option<(Seq<u32>, int)>
    decreases n,
{
    if n == 0 {
        Some((Seq::empty(), p))
    } else {
        match sp_u32(s, p) {
            None => None,
            Some((v, q)) => match sp_char(s, q, ' ') {
                None => None,
                Some(q2) => match sp_u32_list(s, q2, (n - 1) as nat) {
                    None => None,
                    Some((rest, q3)) => Some((seq![v] + rest, q3)),
                },
            },
        }
    }
}

/// `n` signed numbers, each followed by a space.
pub open spec fn sp_i32_list(s: Seq<char>, p: int, n: nat) -> Option<(Seq<i32>, int)>
    decreases n,
{
    if n == 0 {
        Some((Seq::empty(), p))
    } else {
        match sp_i32(s, p) {
            None => None,
            Some((v, q)) => match sp_char(s, q, ' ') {
                None => None,
                Some(q2) => match sp_i32_list(s, q2, (n - 1) as nat) {
                    None => None,
                    Some((rest, q3)) => Some((seq![v] + rest, q3)),
                },
            },
        }
    }
}

pub proof fn lemma_positions(s: Seq<char>, p: int)
    requires
        0 <= p <= s.len(),
    ensures
        sp_u32(s, p) matches Some((_, q)) ==> p < q <= s.len(),
        sp_i32(s, p) matches Some((_, q)) ==> p < q <= s.len(),
        sp_space1(s, p) matches Some(q) ==> p < q <= s.len(),
        sp_quoted(s, p) matches Some((_, q)) ==> p < q <= s.len(),
        sp_unquoted(s, p) matches Some((_, q)) ==> p < q <= s.len(),
        sp_bool(s, p) matches Some((_, q)) ==> p < q <= s.len(),
{
    lemma_run_bounds(s, p);
    let neg_q = if 0 <= p < s.len() && (s[p] == '-' || s[p] == '+') {
        p + 1
    } else {
        p
    };
    lemma_run_bounds(s, neg_q);
    if 0 <= p < s.len() && s[p] == '"' {
        lemma_next_quote(s, p + 1);
    }
}

proof fn lemma_next_quote(s: Seq<char>, p: int)
    requires
        0 <= p,
    ensures
        next_quote(s, p) matches Some(q) ==> p <= q < s.len() && s[q] == '"',
    decreases s.len() - p,
{
    if 0 <= p < s.len() && s[p] != '"' {
        lemma_next_quote(s, p + 1);
    }
}

/// Reads `n` unsigned numbers, each followed by a space.
fn u32_list_at(s: &[char], p: usize, n: usize) -> (r: Option<(Vec<u32>, usize)>)
    requires
        p <= s@.len(),
    ensures
        match r {
            Some((v, q)) => sp_u32_list(s@, p as int, n as nat) == Some((v@, q as int)) && q <= s@.len(),
            None => sp_u32_list(s@, p as int, n as nat) is None,
        },
    decreases n,
{
    if n == 0 {
        let v: Vec<u32> = Vec::new();
        assert(v@ =~= Seq::<u32>::empty());
        return Some((v, p));
    }
    proof {
        lemma_positions(s@, p as int);
    }
    let (v, q) = match u32_at(s, p) {
        Some(x) => x,
        None => {
            return None;
        },
    };
    let q2 = match char_at(s, q, ' ') {
        Some(x) => x,
        None => {
            return None;
        },
    };
    match u32_list_at(s, q2, n - 1) {
        Some((rest, q3)) => {
            let mut out: Vec<u32> = Vec::new();
            out.push(v);
            let mut rest = rest;
            let ghost rv = rest@;
            out.append(&mut rest);
            assert(out@ =~= seq![v] + rv);
            Some((out, q3))
        },
        None => None,
    }
}

/// Reads `n` signed numbers, each followed by a space.
fn i32_list_at(s: &[char], p: usize, n: usize) -> (r: Option<(Vec<i32>, usize)>)
    requires
        p <= s@.len(),
    ensures
        match r {
            Some((v, q)) => sp_i32_list(s@, p as int, n as nat) == Some((v@, q as int)) && q <= s@.len(),
            None => sp_i32_list(s@, p as int, n as nat) is None,
        },
    decreases n,
{
    if n == 0 {
        let v: Vec<i32> = Vec::new();
        assert(v@ =~= Seq::<i32>::empty());
        return Some((v, p));
    }
    proof {
        lemma_positions(s@, p as int);
    }
    let (v, q) = match i32_at(s, p) {
        Some(x) => x,
        None => {
            return None;
        },
    };
    let q2 = match char_at(s, q, ' ') {
        Some(x) => x,
        None => {
            return None;
        },
    };
    match i32_list_at(s, q2, n - 1) {
        Some((rest, q3)) => {
            let mut out: Vec<i32> = Vec::new();
            out.push(v);
            let mut rest = rest;
            let ghost rv = rest@;
            out.append(&mut rest);
            assert(out@ =~= seq![v] + rv);
            Some((out, q3))
        },
        None => None,
    }
}

/// The numbers of a "k" slot line.
pub struct KNumbers {
    pub dims: Seq<u32>,
    pub edges: Seq<u32>,
    pub exits: Seq<u32>,
    pub grounds: Seq<u32>,
    pub heights: Seq<i32>,
    pub tag: u32,
    pub origin: Option<u32>,
}

/// "k" followed by 23-24 numbers: 2 grid dimensions, 4 edge strings, 8 exits, 4 corner
/// grounds, 4 corner heights and a tag string, each but the last followed by a space, then
/// optionally a space and the origin corner.
pub open spec fn sp_k_numbers(s: Seq<char>, p: int) -> Option<(KNumbers, int)> {
    match sp_char(s, p, 'k') {
        None => None,
        Some(p1) => match sp_char(s, p1, ' ') {
            None => None,
            Some(p2) => match sp_u32_list(s, p2, 2) {
                None => None,
                Some((dims, p3)) => match sp_u32_list(s, p3, 4) {
                    None => None,
                    Some((edges, p4)) => match sp_u32_list(s, p4, 8) {
                        None => None,
                        Some((exits, p5)) => match sp_u32_list(s, p5, 4) {
                            None => None,
                            Some((grounds, p6)) => match sp_i32_list(s, p6, 4) {
                                None => None,
                                Some((heights, p7)) => match sp_u32(s, p7) {
                                    None => None,
                                    Some((tag, p8)) => {
                                        let (origin, p9) = match sp_char(s, p8, ' ') {
                                            Some(q) => match sp_u32(s, q) {
                                                Some((o, q2)) => (Some(o), q2),
                                                None => (None, p8),
                                            },
                                            None => (None, p8),
                                        };
                                        Some(
                                            (
                                                KNumbers {
                                                    dims,
                                                    edges,
                                                    exits,
                                                    grounds,
                                                    heights,
                                                    tag,
                                                    origin,
                                                },
                                                p9,
                                            ),
                                        )
                                    },
                                },
                            },
                        },
                    },
                },
            },
        },
    }
}

/// Whether string reference `i` is in the table: 0 is none, `i` the `i`th string.
pub open spec fn ref_ok(strings: Seq<Seq<char>>, i: u32) -> bool {
    i == 0 || i - 1 < strings.len()
}

/// The string that reference `i` names.
pub open spec fn string_ref(strings: Seq<Seq<char>>, i: u32) -> Option<Seq<char>> {
    if i > 0 {
        Some(strings[i - 1])
    } else {
        None
    }
}

/// Model of a slot side: direction, edge string, exit and virtual exit.
pub struct EdgeModel {
    pub direction: Direction,
    pub edge: Option<Seq<char>>,
    pub exit: u32,
    pub virtual_exit: u32,
}

/// Model of a slot corner.
pub struct CornerModel {
    pub direction: Direction,
    pub ground: Option<Seq<char>>,
    pub height: i32,
}

/// Model of a "k" slot.
pub struct SlotKModel {
    pub height: u32,
    pub width: u32,
    pub edges: Seq<EdgeModel>,
    pub corners: Seq<CornerModel>,
    pub slot_tag: Option<Seq<char>>,
    pub origin: Direction,
}

/// The sides, in the order a slot lists them.
pub open spec fn cardinal_order() -> Seq<Direction> {
    seq![Direction::N, Direction::W, Direction::S, Direction::E]
}

/// The corners, in the order a slot lists them.
pub open spec fn diagonal_order() -> Seq<Direction> {
    seq![Direction::SW, Direction::SE, Direction::NE, Direction::NW]
}

/// Whether every string reference of a "k" slot is in the table and its origin is a corner.
pub open spec fn k_refs_ok(n: KNumbers, strings: Seq<Seq<char>>) -> bool {
    &&& forall|i: int| 0 <= i < 4 ==> ref_ok(strings, #[trigger] n.edges[i])
    &&& forall|i: int| 0 <= i < 4 ==> ref_ok(strings, #[trigger] n.grounds[i])
    &&& ref_ok(strings, n.tag)
    &&& (match n.origin {
        Some(o) => o < 4,
        None => true,
    })
}

/// The slot that the numbers of a "k" line describe.
pub open spec fn k_model(n: KNumbers, strings: Seq<Seq<char>>) -> SlotKModel {
    SlotKModel {
        width: n.dims[0],
        height: n.dims[1],
        edges: Seq::new(
            4,
            |i: int|
                EdgeModel {
                    direction: cardinal_order()[i],
                    edge: string_ref(strings, n.edges[i]),
                    exit: n.exits[2 * i],
                    virtual_exit: n.exits[2 * i + 1],
                },
        ),
        corners: Seq::new(
            4,
            |i: int|
                CornerModel {
                    direction: diagonal_order()[i],
                    ground: string_ref(strings, n.grounds[i]),
                    height: n.heights[i],
                },
        ),
        slot_tag: string_ref(strings, n.tag),
        origin: diagonal_order()[(match n.origin {
            Some(o) => o,
            None => 0,
        }) as int],
    }
}

/// A "k" slot.
pub open spec fn sp_slot_k(s: Seq<char>, p: int, strings: Seq<Seq<char>>) -> LineStep<SlotKModel> {
    match sp_k_numbers(s, p) {
        None => LineStep::Fail,
        Some((n, q)) => if k_refs_ok(n, strings) {
            LineStep::Done(k_model(n, strings), q)
        } else {
            LineStep::Abort
        },
    }
}

impl View for Edge {
    type V = EdgeModel;

    open spec fn view(&self) -> EdgeModel {
        EdgeModel {
            direction: self.direction,
            edge: self.edge.deep_view(),
            exit: self.exit,
            virtual_exit: self.virtual_exit,
        }
    }
}

impl View for Corner {
    type V = CornerModel;

    open spec fn view(&self) -> CornerModel {
        CornerModel { direction: self.direction, ground: self.ground.deep_view(), height: self.height }
    }
}

impl View for SlotK {
    type V = SlotKModel;

    open spec fn view(&self) -> SlotKModel {
        SlotKModel {
            height: self.height,
            width: self.width,
            edges: self.edges@.map_values(|e: Edge| e@),
            corners: self.corners@.map_values(|c: Corner| c@),
            slot_tag: self.slot_tag.deep_view(),
            origin: self.origin,
        }
    }
}

/// The string that reference `i` names, copied.
fn string_ref_at(strings: &[String], i: u32) -> (r: Option<String>)
    requires
        ref_ok(strings.deep_view(), i),
    ensures
        r.deep_view() == string_ref(strings.deep_view(), i),
{
    if i > 0 {
        let k = (i - 1) as usize;
        assert(strings.deep_view()[k as int] == strings@[k as int]@);
        Some(strings[k].clone())
    } else {
        None
    }
}

/// The numbers of a "k" slot line, as read.
struct KNumbersRead {
    dims: Vec<u32>,
    edges: Vec<u32>,
    exits: Vec<u32>,
    grounds: Vec<u32>,
    heights: Vec<i32>,
    tag: u32,
    origin: Option<u32>,
}

impl View for KNumbersRead {
    type V = KNumbers;

    closed spec fn view(&self) -> KNumbers {
        KNumbers {
            dims: self.dims@,
            edges: self.edges@,
            exits: self.exits@,
            grounds: self.grounds@,
            heights: self.heights@,
            tag: self.tag,
            origin: self.origin,
        }
    }
}

/// Reads the numbers of a "k" slot line.
fn k_numbers_at(s: &[char], p: usize) -> (r: Option<(KNumbersRead, usize)>)
    requires
        p <= s@.len(),
    ensures
        match r {
            Some((n, q)) => sp_k_numbers(s@, p as int) == Some((n@, q as int)),
            None => sp_k_numbers(s@, p as int) is None,
        },
{
    let p1 = match char_at(s, p, 'k') {
        Some(q) => q,
        None => {
            return None;
        },
    };
    let p2 = match char_at(s, p1, ' ') {
        Some(q) => q,
        None => {
            return None;
        },
    };
    let (dims, p3) = match u32_list_at(s, p2, 2) {
        Some(x) => x,
        None => {
            return None;
        },
    };
    let (edges, p4) = match u32_list_at(s, p3, 4) {
        Some(x) => x,
        None => {
            return None;
        },
    };
    let (exits, p5) = match u32_list_at(s, p4, 8) {
        Some(x) => x,
        None => {
            return None;
        },
    };
    let (grounds, p6) = match u32_list_at(s, p5, 4) {
        Some(x) => x,
        None => {
            return None;
        },
    };
    let (heights, p7) = match i32_list_at(s, p6, 4) {
        Some(x) => x,
        None => {
            return None;
        },
    };
    proof {
        lemma_positions(s@, p7 as int);
    }
    let (tag, p8) = match u32_at(s, p7) {
        Some(x) => x,
        None => {
            return None;
        },
    };
    let (origin, p9) = match char_at(s, p8, ' ') {
        Some(q) => {
            proof {
                lemma_positions(s@, q as int);
            }
            match u32_at(s, q) {
                Some((o, q2)) => (Some(o), q2),
                None => (None, p8),
            }
        },
        None => (None, p8),
    };
    Some((KNumbersRead { dims, edges, exits, grounds, heights, tag, origin }, p9))
}

/// Lengths of the lists of a "k" line.
proof fn lemma_list_lengths(s: Seq<char>, p: int, n: nat)
    ensures
        sp_u32_list(s, p, n) matches Some((v, _)) ==> v.len() == n,
        sp_i32_list(s, p, n) matches Some((v, _)) ==> v.len() == n,
    decreases n,
{
    if n > 0 {
        match sp_u32(s, p) {
            Some((_, q)) => match sp_char(s, q, ' ') {
                Some(q2) => {
                    lemma_list_lengths(s, q2, (n - 1) as nat);
                },
                None => {},
            },
            None => {},
        }
        match sp_i32(s, p) {
            Some((_, q)) => match sp_char(s, q, ' ') {
                Some(q2) => {
                    lemma_list_lengths(s, q2, (n - 1) as nat);
                },
                None => {},
            },
            None => {},
        }
    }
}

/// "k" followed by 23-24 numbers
pub fn slot_k(s: &[char], p: usize, strings: &[String]) -> (r: Option<(SlotK, usize)>)
    requires
        p <= s@.len(),
        !(sp_slot_k(s@, p as int, strings.deep_view()) is Abort),
    ensures
        match sp_slot_k(s@, p as int, strings.deep_view()) {
            LineStep::Done(m, q) => r matches Some((k, q2)) && k@ == m && q2 == q,
            _ => r is None,
        },
{
    let (n, q) = match k_numbers_at(s, p) {
        Some(x) => x,
        None => {
            return None;
        },
    };
    let ghost nv = n@;
    let ghost sv = strings.deep_view();
    proof {
        reveal_with_fuel(sp_u32_list, 1);
        let p1 = p + 1;
        let p2 = p + 2;
        lemma_list_lengths(s@, p2 as int, 2);
        let (_, p3) = sp_u32_list(s@, p2 as int, 2)->Some_0;
        lemma_list_lengths(s@, p3, 4);
        let (_, p4) = sp_u32_list(s@, p3, 4)->Some_0;
        lemma_list_lengths(s@, p4, 8);
        let (_, p5) = sp_u32_list(s@, p4, 8)->Some_0;
        lemma_list_lengths(s@, p5, 4);
        let (_, p6) = sp_u32_list(s@, p5, 4)->Some_0;
        lemma_list_lengths(s@, p6, 4);
        assert(k_refs_ok(nv, sv));
        assert(ref_ok(sv, nv.edges[0]) && ref_ok(sv, nv.edges[1]) && ref_ok(sv, nv.edges[2])
            && ref_ok(sv, nv.edges[3]));
        assert(ref_ok(sv, nv.grounds[0]) && ref_ok(sv, nv.grounds[1]) && ref_ok(sv, nv.grounds[2])
            && ref_ok(sv, nv.grounds[3]));
    }
    let cardinal = Direction::cardinal();
    let diagonals = Direction::diagonals();
    let edges = [
        Edge {
            direction: cardinal[0],
            edge: string_ref_at(strings, n.edges[0]),
            exit: n.exits[0],
            virtual_exit: n.exits[1],
        },
        Edge {
            direction: cardinal[1],
            edge: string_ref_at(strings, n.edges[1]),
            exit: n.exits[2],
            virtual_exit: n.exits[3],
        },
        Edge {
            direction: cardinal[2],
            edge: string_ref_at(strings, n.edges[2]),
            exit: n.exits[4],
            virtual_exit: n.exits[5],
        },
        Edge {
            direction: cardinal[3],
            edge: string_ref_at(strings, n.edges[3]),
            exit: n.exits[6],
            virtual_exit: n.exits[7],
        },
    ];
    let corners = [
        Corner {
            direction: diagonals[0],
            ground: string_ref_at(strings, n.grounds[0]),
            height: n.heights[0],
        },
        Corner {
            direction: diagonals[1],
            ground: string_ref_at(strings, n.grounds[1]),
            height: n.heights[1],
        },
        Corner {
            direction: diagonals[2],
            ground: string_ref_at(strings, n.grounds[2]),
            height: n.heights[2],
        },
        Corner {
            direction: diagonals[3],
            ground: string_ref_at(strings, n.grounds[3]),
            height: n.heights[3],
        },
    ];
    let origin_index: u32 = match n.origin {
        Some(o) => o,
        None => 0,
    };
    let slot = SlotK {
        width: n.dims[0],
        height: n.dims[1],
        edges,
        corners,
        slot_tag: string_ref_at(strings, n.tag),
        origin: diagonals[origin_index as usize],
    };
    proof {
        let m = k_model(nv, sv);
        assert(slot@.edges =~= m.edges);
        assert(slot@.corners =~= m.corners);
    }
    Some((slot, q))
}

/// Model of a grid slot.
pub enum SlotModel {
    K(SlotKModel),
    N,
    F(Option<Seq<char>>),
    S,
    O,
}

impl View for Slot {
    type V = SlotModel;

    open spec fn view(&self) -> SlotModel {
        match self {
            Slot::K(k) => SlotModel::K(k@),
            Slot::N => SlotModel::N,
            Slot::F { fill } => SlotModel::F(fill.deep_view()),
            Slot::S => SlotModel::S,
            Slot::O => SlotModel::O,
        }
    }
}

/// "f " and a fill string reference.
pub open spec fn sp_fill(s: Seq<char>, p: int) -> Option<(u32, int)> {
    match sp_char(s, p, 'f') {
        None => None,
        Some(p1) => match sp_char(s, p1, ' ') {
            None => None,
            Some(p2) => sp_u32(s, p2),
        },
    }
}

/// k, f, s, o, n slots
pub open spec fn sp_slot(s: Seq<char>, p: int, strings: Seq<Seq<char>>) -> LineStep<SlotModel> {
    if sp_char(s, p, 'n') is Some {
        LineStep::Done(SlotModel::N, p + 1)
    } else if sp_char(s, p, 's') is Some {
        LineStep::Done(SlotModel::S, p + 1)
    } else if sp_char(s, p, 'o') is Some {
        LineStep::Done(SlotModel::O, p + 1)
    } else {
        match sp_fill(s, p) {
            Some((i, q)) => if ref_ok(strings, i) {
                LineStep::Done(SlotModel::F(string_ref(strings, i)), q)
            } else {
                LineStep::Abort
            },
            None => match sp_slot_k(s, p, strings) {
                LineStep::Done(k, q) => LineStep::Done(SlotModel::K(k), q),
                LineStep::Fail => LineStep::Fail,
                LineStep::Abort => LineStep::Abort,
            },
        }
    }
}

/// k, f, s, o, n slots
pub fn parse_slot(s: &[char], p: usize, strings: &[String]) -> (r: Option<(Slot, usize)>)
    requires
        p <= s@.len(),
        !(sp_slot(s@, p as int, strings.deep_view()) is Abort),
    ensures
        match sp_slot(s@, p as int, strings.deep_view()) {
            LineStep::Done(m, q) => r matches Some((slot, q2)) && slot@ == m && q2 == q,
            _ => r is None,
        },
{
    if let Some(q) = char_at(s, p, 'n') {
        return Some((Slot::N, q));
    }
    if let Some(q) = char_at(s, p, 's') {
        return Some((Slot::S, q));
    }
    if let Some(q) = char_at(s, p, 'o') {
        return Some((Slot::O, q));
    }
    let fill = match char_at(s, p, 'f') {
        Some(p1) => match char_at(s, p1, ' ') {
            Some(p2) => u32_at(s, p2),
            None => None,
        },
        None => None,
    };
    match fill {
        Some((i, q)) => Some((Slot::F { fill: string_ref_at(strings, i) }, q)),
        None => match slot_k(s, p, strings) {
            Some((k, q)) => Some((Slot::K(k), q)),
            None => None,
        },
    }
}

/// The slot that a room's root line holds.
pub fn root_slot(line: &str, strings: &[String]) -> (r: Option<(Slot, usize)>)
    requires
        !(sp_slot(line@, 0, strings.deep_view()) is Abort),
    ensures
        match sp_slot(line@, 0, strings.deep_view()) {
            LineStep::Done(m, q) => r matches Some((slot, q2)) && slot@ == m && q2 == q,
            _ => r is None,
        },
{
    let chars = chars_of(line);
    parse_slot(chars.as_slice(), 0, strings)
}

/// Model of a [`Thingy`].
pub struct ThingyModel {
    pub et_file: Option<Seq<char>>,
    pub int: i32,
    pub bools: Seq<Option<bool>>,
}

/// An optional space-prefixed boolean: nothing is consumed where there is none.
pub open spec fn sp_opt_bool(s: Seq<char>, p: int) -> (Option<bool>, int) {
    match sp_space1(s, p) {
        Some(q) => match sp_bool(s, q) {
            Some((b, q2)) => (Some(b), q2),
            None => (None, p),
        },
        None => (None, p),
    }
}

/// A thingy line: a string reference, a signed number, and up to three booleans.
pub open spec fn sp_thingy(s: Seq<char>, p: int, strings: Seq<Seq<char>>) -> LineStep<ThingyModel> {
    match sp_u32(s, p) {
        None => LineStep::Fail,
        Some((index, p1)) => if !ref_ok(strings, index) {
            LineStep::Abort
        } else {
            match sp_space1(s, p1) {
                None => LineStep::Fail,
                Some(p2) => match sp_i32(s, p2) {
                    None => LineStep::Fail,
                    Some((value, p3)) => {
                        let (b1, p4) = sp_opt_bool(s, p3);
                        let (b2, p5) = sp_opt_bool(s, p4);
                        let (b3, p6) = sp_opt_bool(s, p5);
                        LineStep::Done(
                            ThingyModel {
                                et_file: string_ref(strings, index),
                                int: value,
                                bools: seq![b1, b2, b3],
                            },
                            p6,
                        )
                    },
                },
            }
        },
    }
}

/// Reads an optional space-prefixed boolean.
fn opt_bool_at(s: &[char], p: usize) -> (r: (Option<bool>, usize))
    requires
        p <= s@.len(),
    ensures
        (r.0, r.1 as int) == sp_opt_bool(s@, p as int),
        r.1 <= s@.len(),
{
    proof {
        lemma_positions(s@, p as int);
    }
    match space1_at(s, p) {
        Some(q) => {
            proof {
                lemma_positions(s@, q as int);
            }
            match bool_at(s, q) {
                Some((b, q2)) => (Some(b), q2),
                None => (None, p),
            }
        },
        None => (None, p),
    }
}

/// A thingy line: a string reference, a signed number, and up to three booleans.
pub fn thingy(line: &str, strings: &[String]) -> (r: Option<(Thingy, usize)>)
    requires
        !(sp_thingy(line@, 0, strings.deep_view()) is Abort),
    ensures
        match sp_thingy(line@, 0, strings.deep_view()) {
            LineStep::Done(m, q) => r matches Some((t, q2)) && t.et_file.deep_view() == m.et_file
                && t.int == m.int && seq![t.bool1, t.bool2, t.bool3] == m.bools && q2 == q,
            _ => r is None,
        },
{
    let chars = chars_of(line);
    let s = chars.as_slice();
    let (index, p1) = match u32_at(s, 0) {
        Some(x) => x,
        None => {
            return None;
        },
    };
    let et_file = string_ref_at(strings, index);
    proof {
        lemma_positions(s@, 0);
    }
    let p2 = match space1_at(s, p1) {
        Some(q) => q,
        None => {
            return None;
        },
    };
    proof {
        lemma_positions(s@, p1 as int);
    }
    let (value, p3) = match i32_at(s, p2) {
        Some(x) => x,
        None => {
            return None;
        },
    };
    proof {
        lemma_positions(s@, p2 as int);
    }
    let (bool1, p4) = opt_bool_at(s, p3);
    let (bool2, p5) = opt_bool_at(s, p4);
    let (bool3, p6) = opt_bool_at(s, p5);
    Some((Thingy { et_file, int: value, bool1, bool2, bool3 }, p6))
}

/// Model of a [`Zone`].
pub struct ZoneModel {
    pub name: Seq<char>,
    pub bbox: Seq<i32>,
    pub string1: Option<Seq<char>>,
    pub env_file: Option<Seq<char>>,
    pub uint1: Option<u32>,
}

/// `n` signed numbers, each after one or more spaces.
pub open spec fn sp_spaced_i32s(s: Seq<char>, p: int, n: nat) -> Option<(Seq<i32>, int)>
    decreases n,
{
    if n == 0 {
        Some((Seq::empty(), p))
    } else {
        match sp_space1(s, p) {
            None => None,
            Some(q) => match sp_i32(s, q) {
                None => None,
                Some((v, q2)) => match sp_spaced_i32s(s, q2, (n - 1) as nat) {
                    None => None,
                    Some((rest, q3)) => Some((seq![v] + rest, q3)),
                },
            },
        }
    }
}

/// A zone line: a name (unquoted before version 35, quoted from then on), a bounding box of four
/// signed numbers, and from version 35 two quoted strings and a number.
pub open spec fn sp_zone(s: Seq<char>, p: int, version: u32) -> Option<(ZoneModel, int)> {
    let name = if version < 35 {
        sp_unquoted(s, p)
    } else {
        sp_quoted(s, p)
    };
    match name {
        None => None,
        Some((name, p1)) => match sp_spaced_i32s(s, p1, 4) {
            None => None,
            Some((bbox, p2)) => if version < 35 {
                Some((ZoneModel { name, bbox, string1: None, env_file: None, uint1: None }, p2))
            } else {
                match sp_space1(s, p2) {
                    None => None,
                    Some(p3) => match sp_quoted(s, p3) {
                        None => None,
                        Some((string1, p4)) => match sp_space1(s, p4) {
                            None => None,
                            Some(p5) => match sp_quoted(s, p5) {
                                None => None,
                                Some((env_file, p6)) => match sp_space1(s, p6) {
                                    None => None,
                                    Some(p7) => match sp_u32(s, p7) {
                                        None => None,
                                        Some((uint1, p8)) => Some(
                                            (
                                                ZoneModel {
                                                    name,
                                                    bbox,
                                                    string1: Some(string1),
                                                    env_file: Some(env_file),
                                                    uint1: Some(uint1),
                                                },
                                                p8,
                                            ),
                                        ),
                                    },
                                },
                            },
                        },
                    },
                }
            },
        },
    }
}

/// Reads `n` signed numbers, each after one or more spaces.
fn spaced_i32s_at(s: &[char], p: usize, n: usize) -> (r: Option<(Vec<i32>, usize)>)
    requires
        p <= s@.len(),
    ensures
        match r {
            Some((v, q)) => sp_spaced_i32s(s@, p as int, n as nat) == Some((v@, q as int)) && q <= s@.len(),
            None => sp_spaced_i32s(s@, p as int, n as nat) is None,
        },
    decreases n,
{
    if n == 0 {
        let v: Vec<i32> = Vec::new();
        assert(v@ =~= Seq::<i32>::empty());
        return Some((v, p));
    }
    proof {
        lemma_positions(s@, p as int);
    }
    let q = match space1_at(s, p) {
        Some(x) => x,
        None => {
            return None;
        },
    };
    proof {
        lemma_positions(s@, q as int);
    }
    let (v, q2) = match i32_at(s, q) {
        Some(x) => x,
        None => {
            return None;
        },
    };
    match spaced_i32s_at(s, q2, n - 1) {
        Some((rest, q3)) => {
            let mut out: Vec<i32> = Vec::new();
            out.push(v);
            let mut rest = rest;
            let ghost rv = rest@;
            out.append(&mut rest);
            assert(out@ =~= seq![v] + rv);
            Some((out, q3))
        },
        None => None,
    }
}

proof fn lemma_spaced_len(s: Seq<char>, p: int, n: nat)
    ensures
        sp_spaced_i32s(s, p, n) matches Some((v, _)) ==> v.len() == n,
    decreases n,
{
    if n > 0 {
        match sp_space1(s, p) {
            Some(q) => match sp_i32(s, q) {
                Some((_, q2)) => {
                    lemma_spaced_len(s, q2, (n - 1) as nat);
                },
                None => {},
            },
            None => {},
        }
    }
}

/// A zone line of a room file of the given version.
pub fn zone(line: &str, version: u32) -> (r: Option<(Zone, usize)>)
    ensures
        match sp_zone(line@, 0, version) {
            Some((m, q)) => r matches Some((z, q2)) && z.name@ == m.name && seq![
                z.x_min,
                z.y_min,
                z.x_max,
                z.y_max,
            ] == m.bbox && z.string1.deep_view() == m.string1 && z.env_file.deep_view()
                == m.env_file && z.uint1 == m.uint1 && q2 == q,
            None => r is None,
        },
{
    let chars = chars_of(line);
    let s = chars.as_slice();
    let name = if version < 35 {
        unquoted_at(s, 0)
    } else {
        quoted_at(s, 0)
    };
    let (name, p1) = match name {
        Some(x) => x,
        None => {
            return None;
        },
    };
    proof {
        lemma_positions(s@, 0);
    }
    let (bbox, p2) = match spaced_i32s_at(s, p1, 4) {
        Some(x) => x,
        None => {
            return None;
        },
    };
    proof {
        lemma_spaced_len(s@, p1 as int, 4);
    }
    if version < 35 {
        let z = Zone {
            name,
            x_min: bbox[0],
            y_min: bbox[1],
            x_max: bbox[2],
            y_max: bbox[3],
            string1: None,
            env_file: None,
            uint1: None,
        };
        assert(seq![z.x_min, z.y_min, z.x_max, z.y_max] =~= bbox@);
        return Some((z, p2));
    }
    proof {
        lemma_positions(s@, p2 as int);
    }
    let p3 = match space1_at(s, p2) {
        Some(q) => q,
        None => {
            return None;
        },
    };
    proof {
        lemma_positions(s@, p3 as int);
    }
    let (string1, p4) = match quoted_at(s, p3) {
        Some(x) => x,
        None => {
            return None;
        },
    };
    proof {
        lemma_positions(s@, p4 as int);
    }
    let p5 = match space1_at(s, p4) {
        Some(q) => q,
        None => {
            return None;
        },
    };
    proof {
        lemma_positions(s@, p5 as int);
    }
    let (env_file, p6) = match quoted_at(s, p5) {
        Some(x) => x,
        None => {
            return None;
        },
    };
    proof {
        lemma_positions(s@, p6 as int);
    }
    let p7 = match space1_at(s, p6) {
        Some(q) => q,
        None => {
            return None;
        },
    };
    let (uint1, p8) = match u32_at(s, p7) {
        Some(x) => x,
        None => {
            return None;
        },
    };
    let z = Zone {
        name,
        x_min: bbox[0],
        y_min: bbox[1],
        x_max: bbox[2],
        y_max: bbox[3],
        string1: Some(string1),
        env_file: Some(env_file),
        uint1: Some(uint1),
    };
    assert(seq![z.x_min, z.y_min, z.x_max, z.y_max] =~= bbox@);
    Some((z, p8))
}

/// A dimensions line: the side length; before version 31 a second number, skipped; from
/// version 22 a last number.
pub open spec fn sp_dimensions(s: Seq<char>, p: int, version: u32) -> Option<(u32, Option<u32>, int)> {
    match sp_u32(s, p) {
        None => None,
        Some((side, p1)) => {
            let skipped = if version < 31 {
                match sp_space1(s, p1) {
                    None => None,
                    Some(q) => match sp_u32(s, q) {
                        None => None,
                        Some((_, q2)) => Some(q2),
                    },
                }
            } else {
                Some(p1)
            };
            match skipped {
                None => None,
                Some(p2) => if version < 22 {
                    Some((side, None, p2))
                } else {
                    match sp_space1(s, p2) {
                        None => None,
                        Some(q) => match sp_u32(s, q) {
                            None => None,
                            Some((u, q2)) => Some((side, Some(u), q2)),
                        },
                    }
                },
            }
        },
    }
}

/// A dimensions line of a room file of the given version.
pub fn dimensions(line: &str, version: u32) -> (r: Option<(Dimension, usize)>)
    ensures
        match sp_dimensions(line@, 0, version) {
            Some((side, uint1, q)) => r matches Some((d, q2)) && d.side_length == side && d.uint1
                == uint1 && q2 == q,
            None => r is None,
        },
{
    let chars = chars_of(line);
    let s = chars.as_slice();
    let (side_length, p1) = match u32_at(s, 0) {
        Some(x) => x,
        None => {
            return None;
        },
    };
    proof {
        lemma_positions(s@, 0);
    }
    let p2 = if version < 31 {
        proof {
            lemma_positions(s@, p1 as int);
        }
        match space1_at(s, p1) {
            Some(q) => {
                proof {
                    lemma_positions(s@, q as int);
                }
                match u32_at(s, q) {
                    Some((_, q2)) => q2,
                    None => {
                        return None;
                    },
                }
            },
            None => {
                return None;
            },
        }
    } else {
        p1
    };
    proof {
        lemma_positions(s@, p2 as int);
    }
    if version < 22 {
        return Some((Dimension { side_length, uint1: None }, p2));
    }
    match space1_at(s, p2) {
        Some(q) => {
            proof {
                lemma_positions(s@, q as int);
            }
            match u32_at(s, q) {
                Some((u, q2)) => Some((Dimension { side_length, uint1: Some(u) }, q2)),
                None => None,
            }
        },
        None => None,
    }
}

/// A doodad connection line: two numbers each followed by spaces, then a quoted tag.
pub open spec fn sp_doodad_connection(s: Seq<char>, p: int) -> Option<(u32, u32, Seq<char>, int)> {
    match sp_u32(s, p) {
        None => None,
        Some((from, p1)) => match sp_space1(s, p1) {
            None => None,
            Some(p2) => match sp_u32(s, p2) {
                None => None,
                Some((to, p3)) => match sp_space1(s, p3) {
                    None => None,
                    Some(p4) => match sp_quoted(s, p4) {
                        None => None,
                        Some((tag, p5)) => Some((from, to, tag, p5)),
                    },
                },
            },
        },
    }
}

/// A doodad connection line.
pub fn doodad_connection(line: &str) -> (r: Option<(DoodadConnection, usize)>)
    ensures
        match sp_doodad_connection(line@, 0) {
            Some((from, to, tag, q)) => r matches Some((c, q2)) && c.from == from && c.to == to
                && c.tag@ == tag && q2 == q,
            None => r is None,
        },
{
    let chars = chars_of(line);
    let s = chars.as_slice();
    proof {
        lemma_positions(s@, 0);
    }
    let (from, p1) = match u32_at(s, 0) {
        Some(x) => x,
        None => {
            return None;
        },
    };
    proof {
        lemma_positions(s@, p1 as int);
    }
    let p2 = match space1_at(s, p1) {
        Some(q) => q,
        None => {
            return None;
        },
    };
    proof {
        lemma_positions(s@, p2 as int);
    }
    let (to, p3) = match u32_at(s, p2) {
        Some(x) => x,
        None => {
            return None;
        },
    };
    proof {
        lemma_positions(s@, p3 as int);
    }
    let p4 = match space1_at(s, p3) {
        Some(q) => q,
        None => {
            return None;
        },
    };
    match quoted_at(s, p4) {
        Some((tag, p5)) => Some((DoodadConnection { from, to, tag }, p5)),
        None => None,
    }
}

} // verus!
