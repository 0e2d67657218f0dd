//! Patch version folder names: "1.2.3.4" -> [1, 2, 3, 4].
use vstd::prelude::*;

verus! {

/// The pieces of `s` between dots, as `str::split('.')` gives them (empty pieces included).
pub open spec fn split_dots(s: Seq<char>) -> Seq<Seq<char>>
    decreases s.len(),
{
    if s.len() == 0 {
        seq![Seq::empty()]
    } else {
        let init = split_dots(s.drop_last());
        if s.last() == '.' {
            init.push(Seq::empty())
        } else {
            init.update(init.len() - 1, init.last().push(s.last()))
        }
    }
}

/// Whether every character is an ASCII digit.
pub open spec fn all_digits(d: Seq<char>) -> bool {
    forall|i: int| 0 <= i < d.len() ==> '0' <= #[trigger] d[i] <= '9'
}

/// The number that decimal digits denote.
pub open spec fn digits_value(d: Seq<char>) -> nat
    decreases d.len(),
{
    if d.len() == 0 {
        0
    } else {
        digits_value(d.drop_last()) * 10 + ((d.last() as nat) - 48) as nat
    }
}

/// `u64::from_str`: an optional `+`, then one or more ASCII digits whose value fits in a `u64`.
pub open spec fn spec_parse_u64(p: Seq<char>) -> Option<u64> {
    let d = if p.len() > 0 && p[0] == '+' {
        p.drop_first()
    } else {
        p
    };
    if d.len() > 0 && all_digits(d) && digits_value(d) <= u64::MAX {
        Some(digits_value(d) as u64)
    } else {
        None
    }
}

/// Every piece parsed, or `None` when one does not parse.
pub open spec fn parse_all(parts: Seq<Seq<char>>) -> Option<Seq<u64>>
    decreases parts.len(),
{
    if parts.len() == 0 {
        Some(Seq::empty())
    } else {
        match (parse_all(parts.drop_last()), spec_parse_u64(parts.last())) {
            (Some(v), Some(x)) => Some(v.push(x)),
            _ => None,
        }
    }
}

/// The patch version that a folder name spells: its dot-separated numbers.
pub open spec fn spec_patch_parts(name: Seq<char>) -> Option<Seq<u64>> {
    parse_all(split_dots(name))
}

/// Why a folder name is not a patch version.
#[derive(Debug, Clone, Copy, PartialEq, Eq, Structural)]
pub enum PatchPartsError {
    /// A piece between dots is not a decimal `u64`
    InvalidNumber,
}

/// Longer prefixes of digits denote no smaller numbers.
pub proof fn lemma_digits_monotone(d: Seq<char>, i: int, j: int)
    requires
        0 <= i <= j <= d.len(),
        all_digits(d),
    ensures
        digits_value(d.take(i)) <= digits_value(d.take(j)),
    decreases j - i,
{
    if i < j {
        lemma_digits_monotone(d, i, j - 1);
        assert(d.take(j).drop_last() =~= d.take(j - 1));
    }
}

/// The pieces of `s` between dots.
fn split_on_dots(s: &str) -> (r: Vec<Vec<char>>)
    ensures
        r@.map_values(|v: Vec<char>| v@) == split_dots(s@),
{
    let n = s.unicode_len();
    let mut parts: Vec<Vec<char>> = Vec::new();
    let mut cur: Vec<char> = Vec::new();
    let mut i: usize = 0;
    assert(s@.take(0) =~= Seq::<char>::empty());
    assert(parts@.map_values(|v: Vec<char>| v@).push(cur@) =~= split_dots(s@.take(0)));
    while i < n
        invariant
            n == s@.len(),
            i <= n,
            parts@.map_values(|v: Vec<char>| v@).push(cur@) == split_dots(s@.take(i as int)),
        decreases n - i,
    {
        let c = s.get_char(i);
        let ghost before = parts@.map_values(|v: Vec<char>| v@);
        assert(s@.take(i + 1).drop_last() =~= s@.take(i as int));
        if c == '.' {
            let done = cur;
            cur = Vec::new();
            parts.push(done);
            assert(parts@.map_values(|v: Vec<char>| v@) =~= before.push(done@));
            assert(parts@.map_values(|v: Vec<char>| v@).push(cur@) =~= split_dots(
                s@.take(i + 1),
            ));
        } else {
            let ghost cur_before = cur@;
            cur.push(c);
            assert(parts@.map_values(|v: Vec<char>| v@).push(cur@) =~= split_dots(
                s@.take(i + 1),
            ));
        }
        i = i + 1;
    }
    assert(s@.take(n as int) =~= s@);
    let ghost before = parts@.map_values(|v: Vec<char>| v@);
    parts.push(cur);
    assert(parts@.map_values(|v: Vec<char>| v@) =~= before.push(cur@));
    parts
}

/// `u64::from_str` on a piece.
fn parse_u64_chars(p: &Vec<char>) -> (r: Option<u64>)
    ensures
        r == spec_parse_u64(p@),
{
    let mut start: usize = 0;
    if p.len() > 0 && p[0] == '+' {
        start = 1;
    }
    let ghost d = p@.skip(start as int);
    assert(start == 1 ==> d =~= p@.drop_first());
    assert(start == 0 ==> d =~= p@);
    if start >= p.len() {
        return None;
    }
    let mut value: u64 = 0;
    let mut i: usize = start;
    while i < p.len()
        invariant
            start <= i <= p@.len(),
            d == p@.skip(start as int),
            d == (if p@.len() > 0 && p@[0] == '+' {
                p@.drop_first()
            } else {
                p@
            }),
            d.len() > 0,
            value == digits_value(d.take(i - start)),
            forall|k: int| 0 <= k < i - start ==> '0' <= #[trigger] d[k] <= '9',
        decreases p@.len() - i,
    {
        let c = p[i];
        let ghost k = i - start;
        assert(d.take(k + 1).drop_last() =~= d.take(k));
        assert(d[k] == c);
        if c < '0' || c > '9' {
            assert(!all_digits(d));
            return None;
        }
        let digit: u64 = (c as u32 - 48) as u64;
        let times = value.checked_mul(10);
        let next = match times {
            Some(t) => t.checked_add(digit),
            None => None,
        };
        match next {
            Some(v) => {
                value = v;
            },
            None => {
                proof {
                    if all_digits(d) {
                        lemma_digits_monotone(d, k + 1, d.len() as int);
                        assert(d.take(d.len() as int) =~= d);
                    }
                }
                return None;
            },
        }
        i = i + 1;
    }
    assert(d.take(d.len() as int) =~= d);
    Some(value)
}

/// "1.2.3.4" -> [1, 2, 3, 4]
pub fn parse_patch_parts(filename: &str) -> (r: Result<Vec<u64>, PatchPartsError>)
    ensures
        match spec_patch_parts(filename@) {
            Some(v) => r matches Ok(w) && w@ == v,
            None => r == Err::<Vec<u64>, PatchPartsError>(PatchPartsError::InvalidNumber),
        },
{
    let parts = split_on_dots(filename);
    let ghost pv = parts@.map_values(|v: Vec<char>| v@);
    let mut out: Vec<u64> = Vec::new();
    let mut i: usize = 0;
    assert(pv.take(0) =~= Seq::<Seq<char>>::empty());
    while i < parts.len()
        invariant
            i <= parts@.len(),
            pv == parts@.map_values(|v: Vec<char>| v@),
            pv == split_dots(filename@),
            parse_all(pv.take(i as int)) == Some(out@),
        decreases parts@.len() - i,
    {
        assert(pv.take(i + 1).drop_last() =~= pv.take(i as int));
        assert(pv[i as int] == parts@[i as int]@);
        match parse_u64_chars(&parts[i]) {
            Some(x) => {
                out.push(x);
                i = i + 1;
            },
            None => {
                proof {
                    lemma_parse_all_stuck(pv, i + 1, pv.len() as int);
                    assert(pv.take(pv.len() as int) =~= pv);
                }
                return Err(PatchPartsError::InvalidNumber);
            },
        }
    }
    assert(pv.take(pv.len() as int) =~= pv);
    Ok(out)
}

/// Once a piece fails to parse, every longer list of pieces fails.
proof fn lemma_parse_all_stuck(parts: Seq<Seq<char>>, i: int, j: int)
    requires
        0 <= i <= j <= parts.len(),
        parse_all(parts.take(i)) is None,
    ensures
        parse_all(parts.take(j)) is None,
    decreases j - i,
{
    if i < j {
        lemma_parse_all_stuck(parts, i, j - 1);
        assert(parts.take(j).drop_last() =~= parts.take(j - 1));
    }
}

} // verus!
