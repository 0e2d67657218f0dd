use vstd::prelude::*;
use crate::bytes::{le16, read_u16_le};

verus! {

/// A Unicode scalar value: a code point that is not a surrogate.
pub open spec fn is_scalar_value(x: u32) -> bool {
    x < 0xD800 || (0xE000 <= x && x <= 0x10FFFF)
}

/// UTF-16 code unit in the surrogate range.
pub open spec fn is_surrogate(u: u16) -> bool {
    0xD800 <= u && u <= 0xDFFF
}

/// Leading (high) surrogate.
pub open spec fn is_high_surrogate(u: u16) -> bool {
    0xD800 <= u && u <= 0xDBFF
}

/// Trailing (low) surrogate.
pub open spec fn is_low_surrogate(u: u16) -> bool {
    0xDC00 <= u && u <= 0xDFFF
}

/// The scalar value that a surrogate pair encodes.
pub open spec fn pair_scalar(hi: u16, lo: u16) -> u32 {
    (0x10000 + (hi - 0xD800) * 0x400 + (lo - 0xDC00)) as u32
}

/// Decoding of UTF-16 code units into characters; `None` where a surrogate is unpaired.
pub open spec fn decode_utf16(units: Seq<u16>) -> Option<Seq<char>>
    decreases units.len(),
{
    if units.len() == 0 {
        Some(Seq::empty())
    } else if !is_surrogate(units[0]) {
        match decode_utf16(units.drop_first()) {
            Some(rest) => Some(seq![(units[0] as u32) as char] + rest),
            None => None,
        }
    } else if is_high_surrogate(units[0]) && units.len() >= 2 && is_low_surrogate(units[1]) {
        match decode_utf16(units.skip(2)) {
            Some(rest) => Some(seq![pair_scalar(units[0], units[1]) as char] + rest),
            None => None,
        }
    } else {
        None
    }
}

/// The code units of `bytes` read as consecutive little-endian pairs; a trailing odd byte
/// is dropped.
pub open spec fn le_units(bytes: Seq<u8>) -> Seq<u16> {
    Seq::new(bytes.len() / 2, |i: int| le16(bytes[2 * i], bytes[2 * i + 1]))
}

/// The code units before the first zero unit (all of them if there is none).
pub open spec fn until_nul(units: Seq<u16>) -> Seq<u16>
    decreases units.len(),
{
    if units.len() == 0 {
        Seq::empty()
    } else if units[0] == 0 {
        Seq::empty()
    } else {
        seq![units[0]] + until_nul(units.drop_first())
    }
}

/// The null-terminated UTF-16LE string at the start of `bytes`, decoded.
pub open spec fn spec_utf16_cstr(bytes: Seq<u8>) -> Option<Seq<char>> {
    decode_utf16(until_nul(le_units(bytes)))
}

/// `char::from_u32`: the character with the given scalar value, or `None` for a surrogate
/// or a value above 0x10FFFF, as the standard library documents.
#[verifier::external_body]
pub(crate) fn char_from_u32(x: u32) -> (r: Option<char>)
    ensures
        r == (if is_scalar_value(x) {
            Some(x as char)
        } else {
            None
        }),
{
    char::from_u32(x)
}

/// Collects characters into a `String` (`FromIterator<&char> for String`); the string holds
/// exactly those characters, in order.
#[verifier::external_body]
pub(crate) fn string_from_chars(chars: &[char]) -> (s: String)
    ensures
        s@ == chars@,
{
    chars.iter().collect()
}

proof fn lemma_decode_step_single(units: Seq<u16>, i: int)
    requires
        0 <= i < units.len(),
        !is_surrogate(units[i]),
    ensures
        units.skip(i).drop_first() == units.skip(i + 1),
        decode_utf16(units.skip(i)) == (match decode_utf16(units.skip(i + 1)) {
            Some(rest) => Some(seq![(units[i] as u32) as char] + rest),
            None => None,
        }),
{
    assert(units.skip(i).drop_first() =~= units.skip(i + 1));
}

proof fn lemma_decode_step_pair(units: Seq<u16>, i: int)
    requires
        0 <= i,
        i + 1 < units.len(),
        is_high_surrogate(units[i]),
        is_low_surrogate(units[i + 1]),
    ensures
        decode_utf16(units.skip(i)) == (match decode_utf16(units.skip(i + 2)) {
            Some(rest) => Some(seq![pair_scalar(units[i], units[i + 1]) as char] + rest),
            None => None,
        }),
{
    assert(units.skip(i).skip(2) =~= units.skip(i + 2));
}

/// Decodes UTF-16 code units (`String::from_utf16`); `None` where a surrogate is unpaired.
pub fn decode_utf16_units(units: &[u16]) -> (r: Option<Vec<char>>)
    ensures
        match r {
            Some(v) => decode_utf16(units@) == Some(v@),
            None => decode_utf16(units@) is None,
        },
{
    let mut out: Vec<char> = Vec::new();
    let mut i: usize = 0;
    assert(units@.skip(0) =~= units@);
    while i < units.len()
        invariant
            i <= units.len(),
            match decode_utf16(units@.skip(i as int)) {
                Some(rest) => decode_utf16(units@) == Some(out@ + rest),
                None => decode_utf16(units@) is None,
            },
        decreases units.len() - i,
    {
        let u = units[i];
        if u < 0xD800 || u > 0xDFFF {
            proof {
                lemma_decode_step_single(units@, i as int);
            }
            let c = char_from_u32(u as u32);
            match c {
                Some(c) => {
                    let ghost old_out = out@;
                    out.push(c);
                    proof {
                        match decode_utf16(units@.skip(i + 1)) {
                            Some(rest) => {
                                assert(out@ + rest =~= old_out + (seq![c] + rest));
                            },
                            None => {},
                        }
                    }
                },
                None => {
                    return None;
                },
            }
            i = i + 1;
        } else if u <= 0xDBFF && i + 1 < units.len() && units[i + 1] >= 0xDC00 && units[i + 1]
            <= 0xDFFF {
            let lo = units[i + 1];
            proof {
                lemma_decode_step_pair(units@, i as int);
            }
            let x: u32 = 0x10000 + ((u - 0xD800) as u32) * 0x400 + ((lo - 0xDC00) as u32);
            let c = char_from_u32(x);
            match c {
                Some(c) => {
                    let ghost old_out = out@;
                    out.push(c);
                    proof {
                        match decode_utf16(units@.skip(i + 2)) {
                            Some(rest) => {
                                assert(out@ + rest =~= old_out + (seq![c] + rest));
                            },
                            None => {},
                        }
                    }
                },
                None => {
                    return None;
                },
            }
            i = i + 2;
        } else {
            return None;
        }
    }
    proof {
        assert(units@.skip(i as int) =~= Seq::<u16>::empty());
        assert(out@ + Seq::<char>::empty() =~= out@);
    }
    Some(out)
}

/// The code units of a null-terminated UTF-16LE string at the start of `input`.
pub fn utf16_units_until_nul(input: &[u8]) -> (r: Vec<u16>)
    ensures
        r@ == until_nul(le_units(input@)),
{
    let ghost units = le_units(input@);
    let mut out: Vec<u16> = Vec::new();
    let mut i: usize = 0;
    let n = input.len() / 2;
    assert(units.skip(0) =~= units);
    while i < n
        invariant
            n == input.len() / 2,
            input@.len() == input.len(),
            units == le_units(input@),
            i <= n,
            until_nul(units) == out@ + until_nul(units.skip(i as int)),
        decreases n - i,
    {
        let u = read_u16_le(input, 2 * i);
        assert(units[i as int] == u);
        assert(units.skip(i as int)[0] == u);
        if u == 0 {
            assert(until_nul(units.skip(i as int)) =~= Seq::<u16>::empty());
            assert(out@ + Seq::<u16>::empty() =~= out@);
            return out;
        }
        assert(units.skip(i as int).drop_first() =~= units.skip(i + 1));
        let ghost old_out = out@;
        out.push(u);
        assert(out@ + until_nul(units.skip(i + 1)) =~= old_out + (seq![u] + until_nul(
            units.skip(i + 1),
        )));
        i = i + 1;
    }
    assert(until_nul(units.skip(i as int)) =~= Seq::<u16>::empty());
    assert(out@ + Seq::<u16>::empty() =~= out@);
    out
}

/// Whether the null-terminated UTF-16LE string at the start of `input` is valid.
pub fn is_utf16_cstr(input: &[u8]) -> (r: bool)
    ensures
        r == (spec_utf16_cstr(input@) is Some),
{
    let units = utf16_units_until_nul(input);
    decode_utf16_units(units.as_slice()).is_some()
}

/// Take a null-terminated UTF-16 string
pub fn take_utf16_string(input: &[u8]) -> (r: String)
    requires
        spec_utf16_cstr(input@) is Some,
    ensures
        Some(r@) == spec_utf16_cstr(input@),
{
    let units = utf16_units_until_nul(input);
    let chars = decode_utf16_units(units.as_slice());
    match chars {
        Some(chars) => string_from_chars(chars.as_slice()),
        None => {
            proof {
                assert(false);
            }
            String::new()
        },
    }
}

} // verus!
