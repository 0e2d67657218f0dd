use vstd::prelude::*;

verus! {

/// Little-endian value of two bytes.
pub open spec fn le16(b0: u8, b1: u8) -> u16 {
    (b0 as int + 256 * (b1 as int)) as u16
}

/// Little-endian value of four bytes.
pub open spec fn le32(b0: u8, b1: u8, b2: u8, b3: u8) -> u32 {
    (b0 as int + 0x100 * (b1 as int) + 0x1_0000 * (b2 as int) + 0x100_0000 * (b3 as int)) as u32
}

/// Little-endian `u16` at `pos` of `s`.
pub open spec fn le16_at(s: Seq<u8>, pos: int) -> u16 {
    le16(s[pos], s[pos + 1])
}

/// Little-endian `u32` at `pos` of `s`.
pub open spec fn le32_at(s: Seq<u8>, pos: int) -> u32 {
    le32(s[pos], s[pos + 1], s[pos + 2], s[pos + 3])
}

/// Little-endian value of the bytes `s[pos..pos + n]`, most significant byte last.
pub open spec fn le_value(s: Seq<u8>, pos: int, n: nat) -> nat
    decreases n,
{
    if n == 0 {
        0
    } else {
        s[pos] as nat + 256 * le_value(s, pos + 1, (n - 1) as nat)
    }
}

/// Reads a little-endian `u16`.
pub fn read_u16_le(s: &[u8], pos: usize) -> (r: u16)
    requires
        pos + 2 <= s@.len(),
    ensures
        r == le16_at(s@, pos as int),
{
    (s[pos] as u16) + (s[pos + 1] as u16) * 256
}

/// Reads a little-endian `u32`.
pub fn read_u32_le(s: &[u8], pos: usize) -> (r: u32)
    requires
        pos + 4 <= s@.len(),
    ensures
        r == le32_at(s@, pos as int),
{
    (s[pos] as u32) + (s[pos + 1] as u32) * 0x100 + (s[pos + 2] as u32) * 0x1_0000 + (s[pos
        + 3] as u32) * 0x100_0000
}

/// Reads a little-endian value of `n` bytes into a `u128`.
pub fn read_le(s: &[u8], pos: usize, n: usize) -> (r: u128)
    requires
        pos + n <= s@.len(),
        n <= 16,
    ensures
        r == le_value(s@, pos as int, n as nat),
        r < pow256(n as nat),
{
    let mut acc: u128 = 0;
    let mut i: usize = n;
    while i > 0
        invariant
            i <= n,
            pos + n <= s.len(),
            n <= 16,
            acc == le_value(s@, pos + i, (n - i) as nat),
            acc < pow256((n - i) as nat),
        decreases i,
    {
        i = i - 1;
        let ghost k: nat = (n - i) as nat;
        proof {
            lemma_pow256_step((k - 1) as nat);
            lemma_pow256_mono(k, 16);
            lemma_pow256_16();
            assert(s[pos + i as int] as int + 256 * acc < pow256(k)) by (nonlinear_arith)
                requires
                    acc < pow256((k - 1) as nat),
                    pow256(k) == 256 * pow256((k - 1) as nat),
                    s[pos + i as int] < 256,
            ;
        }
        let b = s[pos + i];
        assert(b as int + 256 * acc < 0x1_0000_0000_0000_0000_0000_0000_0000_0000);
        acc = (b as u128) + 256 * acc;
    }
    acc
}

/// 256 to the power `n`.
pub open spec fn pow256(n: nat) -> nat
    decreases n,
{
    if n == 0 {
        1
    } else {
        256 * pow256((n - 1) as nat)
    }
}

proof fn lemma_pow256_step(n: nat)
    ensures
        pow256(n + 1) == 256 * pow256(n),
{
}

proof fn lemma_pow256_mono(a: nat, b: nat)
    requires
        a <= b,
    ensures
        pow256(a) <= pow256(b),
        pow256(b) <= pow256(16) ==> true,
    decreases b - a,
{
    if a < b {
        lemma_pow256_mono(a, (b - 1) as nat);
    }
}

/// 256^8 is the range of a `u64`.
pub proof fn lemma_pow256_8()
    ensures
        pow256(8) == 0x1_0000_0000_0000_0000,
{
    reveal_with_fuel(pow256, 9);
}

/// Reads a little-endian `u64`.
pub fn read_u64_le(s: &[u8], pos: usize) -> (r: u64)
    requires
        pos + 8 <= s@.len(),
    ensures
        r == le_value(s@, pos as int, 8),
{
    let v = read_le(s, pos, 8);
    proof {
        lemma_pow256_8();
    }
    v as u64
}

/// 256^16 is the range of a `u128`.
proof fn lemma_pow256_16()
    ensures
        pow256(16) == 0x1_0000_0000_0000_0000_0000_0000_0000_0000,
{
    reveal_with_fuel(pow256, 17);
}

/// A copy of `s[start..end]`.
pub fn copy_range(s: &[u8], start: usize, end: usize) -> (r: Vec<u8>)
    requires
        start <= end <= s@.len(),
    ensures
        r@ == s@.subrange(start as int, end as int),
{
    let mut out: Vec<u8> = Vec::new();
    let mut i = start;
    while i < end
        invariant
            start <= i <= end <= s@.len(),
            out@ == s@.subrange(start as int, i as int),
        decreases end - i,
    {
        out.push(s[i]);
        i = i + 1;
        assert(out@ =~= s@.subrange(start as int, i as int));
    }
    out
}

} // verus!
