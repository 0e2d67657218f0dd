//! Reading the contents of a bundle: its data is split into blocks of a fixed uncompressed size,
//! each compressed on its own with Oodle.
use vstd::prelude::*;

verus! {

/// The sizes a bundle's header records.
pub struct BundleHead {
    /// Size of the whole uncompressed content
    pub uncompressed_size: u64,
    /// Uncompressed size of every block but the last
    pub uncompressed_block_granularity: u32,
}

/// A bundle: its header and its compressed blocks, in order.
pub struct BundleFile {
    pub head: BundleHead,
    pub blocks: Vec<Vec<u8>>,
}

/// What Oodle decompression of `input` into a zeroed buffer of `out_len` bytes leaves in the
/// buffer, or `None` where it reports an error, as `oozextract` computes it.
pub uninterp spec fn oodle_decompress(input: Seq<u8>, out_len: nat) -> Option<Seq<u8>>;

/// Whether `oozextract` panics decompressing `input` into a buffer of `out_len` bytes, instead of
/// reporting an error: its decoders unwrap and assert on lengths read from the input, so some
/// malformed blocks panic. Like the output, this depends on the block and the buffer's length
/// alone.
pub uninterp spec fn oodle_panics(input: Seq<u8>, out_len: nat) -> bool;

/// Calls `oozextract::Extractor::read_from_slice` with a fresh extractor and a zeroed buffer of
/// `out_len` bytes, on a block it does not panic on (named [`oodle_panics`]; which blocks those
/// are is not stated here). What it leaves in the buffer depends on the block and the buffer's
/// length alone (a fresh extractor holds no state), named [`oodle_decompress`]; the buffer keeps
/// its length. The decompression itself is not stated here.
#[verifier::external_body]
fn decompress_block(block: &[u8], out_len: usize) -> (r: Option<Vec<u8>>)
    requires
        !oodle_panics(block@, out_len as nat),
    ensures
        match r {
            Some(v) => oodle_decompress(block@, out_len as nat) == Some(v@) && v@.len() == out_len
                && !oodle_panics(block@, out_len as nat),
            None => oodle_decompress(block@, out_len as nat) is None && !oodle_panics(
                block@,
                out_len as nat,
            ),
        },
{
    let mut out = vec![0u8; out_len];
    match oozextract::Extractor::new().read_from_slice(block, &mut out) {
        Ok(_) => Some(out),
        Err(_) => None,
    }
}

/// The bytes of each block.
pub open spec fn block_views(blocks: Seq<Vec<u8>>) -> Seq<Seq<u8>> {
    blocks.map_values(|b: Vec<u8>| b@)
}

/// Why a bundle range could not be read.
#[derive(Debug, Clone, Copy, PartialEq, Eq, Structural)]
pub enum BundleError {
    /// A block failed to decompress
    DecompressFailed,
}

/// `a / b`, rounded up.
pub open spec fn ceil_div(a: nat, b: nat) -> nat {
    a / b + if a % b > 0 {
        1nat
    } else {
        0nat
    }
}

/// The first block a range touches.
pub open spec fn first_block(offset: nat, bs: nat) -> nat {
    offset / bs
}

/// One past the last block a range touches.
pub open spec fn end_block(offset: nat, len: nat, bs: nat) -> nat {
    ceil_div(offset + len, bs)
}

/// The size of the block-aligned buffer that a range is decoded into: up to the end of its last
/// block, but not past the end of the content.
pub open spec fn buffer_size(size: nat, offset: nat, len: nat, bs: nat) -> int {
    let end = end_block(offset, len, bs) * bs;
    (if end < size {
        end
    } else {
        size
    }) - first_block(offset, bs) * bs
}

/// The uncompressed length of the `k`th chunk of a buffer of `buf` bytes.
pub open spec fn chunk_len(buf: nat, bs: nat, k: nat) -> nat {
    if buf - k * bs < bs {
        (buf - k * bs) as nat
    } else {
        bs
    }
}

/// The first `k` chunks of the buffer, each decompressed from its block (blocks counted from
/// `start`).
pub open spec fn decompress_chunks(blocks: Seq<Seq<u8>>, start: nat, buf: nat, bs: nat, k: nat) -> Option<Seq<u8>>
    decreases k,
{
    if k == 0 {
        Some(Seq::empty())
    } else {
        match (
            decompress_chunks(blocks, start, buf, bs, (k - 1) as nat),
            oodle_decompress(blocks[start + k - 1], chunk_len(buf, bs, (k - 1) as nat)),
        ) {
            (Some(a), Some(c)) => Some(a + c),
            _ => None,
        }
    }
}

/// Whether decompressing the first `k` chunks panics: some chunk panics, all the chunks before it
/// having decompressed (reading stops at the first chunk that fails).
pub open spec fn chunks_panic(blocks: Seq<Seq<u8>>, start: nat, buf: nat, bs: nat, k: nat) -> bool
    decreases k,
{
    if k == 0 {
        false
    } else {
        chunks_panic(blocks, start, buf, bs, (k - 1) as nat) || (decompress_chunks(
            blocks,
            start,
            buf,
            bs,
            (k - 1) as nat,
        ) is Some && oodle_panics(blocks[start + k - 1], chunk_len(buf, bs, (k - 1) as nat)))
    }
}

/// Whether reading the range panics in the decoder: one of the blocks it decompresses, before
/// any fails, is one the decoder panics on.
pub open spec fn range_decoder_panics(size: nat, bs: nat, blocks: Seq<Seq<u8>>, offset: nat, len: nat) -> bool {
    let start = first_block(offset, bs);
    let buf = buffer_size(size, offset, len, bs) as nat;
    chunks_panic(blocks, start, buf, bs, ceil_div(buf, bs))
}

/// The bytes `offset..offset + len` of the content: the blocks the range touches are
/// decompressed into a block-aligned buffer, and the range is cut out of it.
pub open spec fn spec_read_range(size: nat, bs: nat, blocks: Seq<Seq<u8>>, offset: nat, len: nat) -> Option<Seq<u8>> {
    let start = first_block(offset, bs);
    let buf = buffer_size(size, offset, len, bs) as nat;
    match decompress_chunks(blocks, start, buf, bs, ceil_div(buf, bs)) {
        Some(b) => Some(b.subrange((offset % bs) as int, ((offset % bs) + len) as int)),
        None => None,
    }
}

/// Whether reading the range panics: a zero block size, arithmetic that overflows, a range
/// past the blocks, or a range past the end of the content.
pub open spec fn read_range_panics(size: nat, bs: nat, n_blocks: nat, offset: nat, len: nat) -> bool {
    ||| bs == 0
    ||| offset + len > usize::MAX
    ||| end_block(offset, len, bs) * bs > usize::MAX
    ||| buffer_size(size, offset, len, bs) < 0
    ||| end_block(offset, len, bs) > n_blocks
    ||| (offset % bs) + len > buffer_size(size, offset, len, bs)
}

/// Rounding up: `ceil_div(a, b)` blocks of `b` cover `a`, with less than a block to spare.
proof fn lemma_ceil_div(a: nat, b: nat)
    requires
        b > 0,
    ensures
        ceil_div(a, b) * b >= a,
        ceil_div(a, b) * b < a + b,
        forall|k: nat| k < ceil_div(a, b) ==> #[trigger] (k * b) < a,
{
    vstd::arithmetic::div_mod::lemma_fundamental_div_mod(a as int, b as int);
    let q = a / b;
    let r = a % b;
    assert(ceil_div(a, b) * b >= a) by (nonlinear_arith)
        requires
            a == b * q + r,
            0 <= r < b,
            ceil_div(a, b) == q + (if r > 0 { 1nat } else { 0nat }),
    ;
    assert(ceil_div(a, b) * b < a + b) by (nonlinear_arith)
        requires
            a == b * q + r,
            0 <= r < b,
            ceil_div(a, b) == q + (if r > 0 { 1nat } else { 0nat }),
    ;
    assert forall|k: nat| k < ceil_div(a, b) implies #[trigger] (k * b) < a by {
        assert(k * b < a) by (nonlinear_arith)
            requires
                a == b * q + r,
                0 <= r < b,
                ceil_div(a, b) == q + (if r > 0 { 1nat } else { 0nat }),
                k < ceil_div(a, b),
        ;
    }
}

/// The blocks a range touches run forward from the block holding its start.
proof fn lemma_range_blocks(offset: nat, len: nat, bs: nat)
    requires
        bs > 0,
    ensures
        first_block(offset, bs) <= end_block(offset, len, bs),
        first_block(offset, bs) * bs <= offset,
        end_block(offset, len, bs) * bs >= offset + len,
{
    vstd::arithmetic::div_mod::lemma_fundamental_div_mod(offset as int, bs as int);
    vstd::arithmetic::div_mod::lemma_div_is_ordered(offset as int, (offset + len) as int, bs as int);
    lemma_ceil_div(offset + len, bs);
    assert(first_block(offset, bs) * bs <= offset) by (nonlinear_arith)
        requires
            offset == bs * (offset / bs) + offset % bs,
            0 <= offset % bs,
            first_block(offset, bs) == offset / bs,
    ;
}

/// The uncompressed size of block `k` of a content of `size` bytes cut into blocks of `bs`: a
/// whole block, or what is left of the content for the last one.
pub open spec fn block_len(size: nat, bs: nat, k: nat) -> nat {
    if size - k * bs < bs {
        (size - k * bs) as nat
    } else {
        bs
    }
}

/// Each block from `first` up to `end` that decompresses gives as many bytes as its uncompressed
/// size, as Oodle fills the buffer it is given.
pub open spec fn blocks_fill(blocks: Seq<Seq<u8>>, size: nat, bs: nat, first: nat, end: nat) -> bool {
    forall|k: nat|
        first <= k < end ==> match #[trigger] oodle_decompress(blocks[k as int], block_len(size, bs, k)) {
            Some(c) => c.len() == block_len(size, bs, k),
            None => true,
        }
}

/// Byte `i` of the uncompressed content: byte `i % bs` of block `i / bs`, decompressed.
pub open spec fn content_byte(blocks: Seq<Seq<u8>>, size: nat, bs: nat, i: nat) -> u8 {
    let k = i / bs;
    oodle_decompress(blocks[k as int], block_len(size, bs, k)).unwrap()[(i % bs) as int]
}

/// The `k`th chunk of the buffer of a range is decompressed into the size of the block it holds.
proof fn lemma_chunk_is_block(size: nat, bs: nat, start: nat, end: nat, buf: nat, k: nat)
    requires
        bs > 0,
        start <= end,
        buf + start * bs == (if end * bs < size {
            end * bs
        } else {
            size
        }),
        k < ceil_div(buf, bs),
        start + ceil_div(buf, bs) <= end,
    ensures
        k * bs < buf,
        chunk_len(buf, bs, k) == block_len(size, bs, start + k),
        (start + k) * bs < size,
{
    lemma_ceil_div(buf, bs);
    assert(k * bs < buf);
    assert((start + k) * bs == start * bs + k * bs) by (nonlinear_arith);
    if end * bs < size {
        assert((end - start - k) * bs >= bs) by (nonlinear_arith)
            requires
                end - start - k >= 1,
                bs > 0,
        ;
        assert((end - start - k) * bs == end * bs - (start + k) * bs) by (nonlinear_arith);
    }
}

/// The first `k` chunks of a range's buffer hold the content from the range's first block on.
proof fn lemma_chunks_bytes(blocks: Seq<Seq<u8>>, size: nat, bs: nat, start: nat, end: nat, buf: nat, k: nat)
    requires
        bs > 0,
        start <= end,
        buf + start * bs == (if end * bs < size {
            end * bs
        } else {
            size
        }),
        k <= ceil_div(buf, bs),
        start + ceil_div(buf, bs) <= end,
        blocks_fill(blocks, size, bs, start, end),
    ensures
        decompress_chunks(blocks, start, buf, bs, k) matches Some(b) ==> {
            &&& b.len() == (if k * bs <= buf {
                (k * bs) as int
            } else {
                buf as int
            })
            &&& forall|i: int|
                0 <= i < b.len() ==> b[i] == content_byte(blocks, size, bs, (start * bs + i) as nat)
        },
    decreases k,
{
    if k > 0 {
        let j = (k - 1) as nat;
        lemma_chunks_bytes(blocks, size, bs, start, end, buf, j);
        lemma_chunk_is_block(size, bs, start, end, buf, j);
        if let Some(b) = decompress_chunks(blocks, start, buf, bs, k) {
            let a = decompress_chunks(blocks, start, buf, bs, j).unwrap();
            let kb = start + j;
            let c = oodle_decompress(blocks[kb as int], chunk_len(buf, bs, j)).unwrap();
            assert(oodle_decompress(blocks[kb as int], block_len(size, bs, kb)) is Some);
            assert(c.len() == block_len(size, bs, kb));
            assert(b == a + c);
            assert(j * bs <= buf);
            assert(a.len() == j * bs);
            assert(k * bs == j * bs + bs) by (nonlinear_arith)
                requires
                    k == j + 1,
            ;
            assert forall|i: int| 0 <= i < b.len() implies b[i] == content_byte(
                blocks,
                size,
                bs,
                (start * bs + i) as nat,
            ) by {
                if i >= a.len() {
                    let r = i - j * bs;
                    assert(b[i] == c[r]);
                    assert(start * bs + i == kb * bs + r) by (nonlinear_arith)
                        requires
                            kb == start + j,
                            r == i - j * bs,
                    ;
                    vstd::arithmetic::div_mod::lemma_fundamental_div_mod_converse(
                        start * bs + i,
                        bs as int,
                        kb as int,
                        r,
                    );
                }
            }
        }
    }
}

/// A range that can be read decompresses every block it touches: the buffer has one chunk per
/// block from the first to the last.
proof fn lemma_range_chunk_count(size: nat, bs: nat, n_blocks: nat, offset: nat, len: nat)
    requires
        !read_range_panics(size, bs, n_blocks, offset, len),
    ensures
        first_block(offset, bs) + ceil_div(buffer_size(size, offset, len, bs) as nat, bs)
            == end_block(offset, len, bs),
{
    let start = first_block(offset, bs);
    let end = end_block(offset, len, bs);
    let buf = buffer_size(size, offset, len, bs) as nat;
    lemma_range_blocks(offset, len, bs);
    lemma_ceil_div(buf, bs);
    lemma_ceil_div(offset + len, bs);
    vstd::arithmetic::div_mod::lemma_fundamental_div_mod(offset as int, bs as int);
    let n = ceil_div(buf, bs);
    assert(n + start <= end) by (nonlinear_arith)
        requires
            n * bs < buf + bs,
            buf <= end * bs - start * bs,
            bs > 0,
            start <= end,
    {
        assert(end * bs - start * bs == (end - start) * bs);
    }
    if end > start {
        let m = (end - 1) as nat;
        assert(m * bs < offset + len);
        assert((m - start) * bs == m * bs - start * bs) by (nonlinear_arith);
        assert(offset + len <= start * bs + buf);
        assert((m - start) * bs < buf);
        assert(n > m - start) by (nonlinear_arith)
            requires
                n * bs >= buf,
                (m - start) * bs < buf,
                bs > 0,
                m >= start,
        ;
    }
}

/// Reading a range gives the bytes `offset..offset + len` of the content: byte `j` of the
/// result is byte `offset + j` of the concatenation of the decompressed blocks, wherever the
/// range starts inside its first block (given that each block decompresses to its uncompressed
/// size).
pub proof fn lemma_read_range_bytes(size: nat, bs: nat, blocks: Seq<Seq<u8>>, offset: nat, len: nat)
    requires
        !read_range_panics(size, bs, blocks.len(), offset, len),
        blocks_fill(blocks, size, bs, first_block(offset, bs), end_block(offset, len, bs)),
    ensures
        spec_read_range(size, bs, blocks, offset, len) matches Some(v) ==> {
            &&& v.len() == len
            &&& forall|j: int| 0 <= j < len ==> v[j] == content_byte(blocks, size, bs, (offset + j) as nat)
        },
{
    let start = first_block(offset, bs);
    let end = end_block(offset, len, bs);
    let buf = buffer_size(size, offset, len, bs) as nat;
    lemma_range_blocks(offset, len, bs);
    lemma_ceil_div(buf, bs);
    let n = ceil_div(buf, bs);
    assert(n + start <= end) by (nonlinear_arith)
        requires
            n * bs < buf + bs,
            buf <= end * bs - start * bs,
            bs > 0,
            start <= end,
    {
        assert(end * bs - start * bs == (end - start) * bs);
    }
    lemma_chunks_bytes(blocks, size, bs, start, end, buf, n);
    if let Some(v) = spec_read_range(size, bs, blocks, offset, len) {
        let b = decompress_chunks(blocks, start, buf, bs, n).unwrap();
        let lo = offset % bs;
        vstd::arithmetic::div_mod::lemma_fundamental_div_mod(offset as int, bs as int);
        assert(b.len() == buf);
        assert forall|j: int| 0 <= j < len implies v[j] == content_byte(
            blocks,
            size,
            bs,
            (offset + j) as nat,
        ) by {
            assert(v[j] == b[lo + j]);
            assert(start * bs + (lo + j) == offset + j) by (nonlinear_arith)
                requires
                    offset == bs * start + lo,
            ;
        }
    }
}

impl BundleFile {
    /// The content bytes `offset..offset + len`.
    pub fn read_range(&self, offset: usize, len: usize) -> (r: Result<Vec<u8>, BundleError>)
        requires
            self.head.uncompressed_size <= usize::MAX,
            !read_range_panics(
                self.head.uncompressed_size as nat,
                self.head.uncompressed_block_granularity as nat,
                self.blocks@.len(),
                offset as nat,
                len as nat,
            ),
            !range_decoder_panics(
                self.head.uncompressed_size as nat,
                self.head.uncompressed_block_granularity as nat,
                block_views(self.blocks@),
                offset as nat,
                len as nat,
            ),
        ensures
            match spec_read_range(
                self.head.uncompressed_size as nat,
                self.head.uncompressed_block_granularity as nat,
                block_views(self.blocks@),
                offset as nat,
                len as nat,
            ) {
                Some(v) => r matches Ok(w) && w@ == v,
                None => r == Err::<Vec<u8>, BundleError>(BundleError::DecompressFailed),
            },
            r matches Ok(w) ==> w@.len() == len && forall|j: int|
                0 <= j < len ==> w@[j] == content_byte(
                    block_views(self.blocks@),
                    self.head.uncompressed_size as nat,
                    self.head.uncompressed_block_granularity as nat,
                    (offset + j) as nat,
                ),
    {
        let block_size = self.head.uncompressed_block_granularity as usize;
        let size = self.head.uncompressed_size as usize;
        let ghost bv = block_views(self.blocks@);
        proof {
            lemma_range_blocks(offset as nat, len as nat, block_size as nat);
            lemma_ceil_div((offset + len) as nat, block_size as nat);
        }
        let block_start = offset / block_size;
        let total = offset + len;
        let extra: usize = if total % block_size > 0 {
            1
        } else {
            0
        };
        assert(total / block_size + extra == end_block(offset as nat, len as nat, block_size as nat));
        assert(end_block(offset as nat, len as nat, block_size as nat) <= usize::MAX) by (nonlinear_arith)
            requires
                end_block(offset as nat, len as nat, block_size as nat) * block_size <= usize::MAX,
                block_size >= 1,
        ;
        let block_end = total / block_size + extra;
        let aligned_end = block_end * block_size;
        let end = if aligned_end < size {
            aligned_end
        } else {
            size
        };
        let buf_size = end - block_start * block_size;
        let extra_chunk: usize = if buf_size % block_size > 0 {
            1
        } else {
            0
        };
        proof {
            lemma_ceil_div(buf_size as nat, block_size as nat);
            assert(ceil_div(buf_size as nat, block_size as nat) <= buf_size) by (nonlinear_arith)
                requires
                    ceil_div(buf_size as nat, block_size as nat) * block_size < buf_size + block_size,
                    block_size >= 1,
            ;
        }
        let n_chunks = buf_size / block_size + extra_chunk;
        proof {
            assert(n_chunks == ceil_div(buf_size as nat, block_size as nat));
            assert(n_chunks + block_start <= block_end) by (nonlinear_arith)
                requires
                    n_chunks * block_size < buf_size + block_size,
                    buf_size <= block_end * block_size - block_start * block_size,
                    block_size > 0,
                    block_start <= block_end,
            {
                assert(block_end * block_size - block_start * block_size == (block_end - block_start)
                    * block_size);
            }
        }
        let mut buf: Vec<u8> = Vec::new();
        let mut k: usize = 0;
        while k < n_chunks
            invariant
                block_size > 0,
                k <= n_chunks,
                n_chunks == ceil_div(buf_size as nat, block_size as nat),
                forall|j: nat| j < n_chunks ==> #[trigger] (j * (block_size as nat)) < buf_size,
                block_start == first_block(offset as nat, block_size as nat),
                buf_size == buffer_size(size as nat, offset as nat, len as nat, block_size as nat),
                size == self.head.uncompressed_size,
                block_size == self.head.uncompressed_block_granularity,
                n_chunks + block_start <= block_end,
                block_end <= self.blocks@.len(),
                bv == block_views(self.blocks@),
                !chunks_panic(bv, block_start as nat, buf_size as nat, block_size as nat, n_chunks as nat),
                decompress_chunks(bv, block_start as nat, buf_size as nat, block_size as nat, k as nat)
                    == Some(buf@),
                forall|k2: nat|
                    k2 < k ==> match #[trigger] oodle_decompress(
                        bv[block_start + k2],
                        chunk_len(buf_size as nat, block_size as nat, k2),
                    ) {
                        Some(c) => c.len() == chunk_len(buf_size as nat, block_size as nat, k2),
                        None => true,
                    },
                buf@.len() == (if k * block_size <= buf_size {
                    k * block_size
                } else {
                    buf_size as int
                }),
            decreases n_chunks - k,
        {
            assert((k as nat) * (block_size as nat) < buf_size);
            let remaining = buf_size - k * block_size;
            let chunk_size = if remaining < block_size {
                remaining
            } else {
                block_size
            };
            let block = &self.blocks[block_start + k];
            assert(bv[block_start + k] == block@);
            proof {
                lemma_chunks_panic_grows(
                    bv,
                    block_start as nat,
                    buf_size as nat,
                    block_size as nat,
                    (k + 1) as nat,
                    n_chunks as nat,
                );
                assert(chunk_size == chunk_len(buf_size as nat, block_size as nat, k as nat));
            }
            match decompress_block(block.as_slice(), chunk_size) {
                Some(mut out) => {
                    let ghost before = buf@;
                    let ghost piece = out@;
                    buf.append(&mut out);
                    proof {
                        assert((k + 1) * block_size == k * block_size + block_size) by (nonlinear_arith);
                        assert(buf@ =~= before + piece);
                    }
                    k = k + 1;
                },
                None => {
                    proof {
                        lemma_chunks_fail(
                            bv,
                            block_start as nat,
                            buf_size as nat,
                            block_size as nat,
                            (k + 1) as nat,
                            n_chunks as nat,
                        );
                    }
                    return Err(BundleError::DecompressFailed);
                },
            }
        }
        assert(buf@.len() == buf_size);
        proof {
            let first = first_block(offset as nat, block_size as nat);
            let last = end_block(offset as nat, len as nat, block_size as nat);
            lemma_range_chunk_count(
                size as nat,
                block_size as nat,
                self.blocks@.len(),
                offset as nat,
                len as nat,
            );
            assert forall|kb: nat| first <= kb < last implies match #[trigger] oodle_decompress(
                bv[kb as int],
                block_len(size as nat, block_size as nat, kb),
            ) {
                Some(c) => c.len() == block_len(size as nat, block_size as nat, kb),
                None => true,
            } by {
                let k2 = (kb - first) as nat;
                lemma_chunk_is_block(
                    size as nat,
                    block_size as nat,
                    first,
                    last,
                    buf_size as nat,
                    k2,
                );
                assert(first + k2 == kb);
            }
            lemma_read_range_bytes(
                size as nat,
                block_size as nat,
                bv,
                offset as nat,
                len as nat,
            );
        }
        let lo = offset % block_size;
        let hi = lo + len;
        let out = crate::bytes::copy_range(buf.as_slice(), lo, hi);
        Ok(out)
    }

    /// Return the entire content of the bundle
    pub fn read_all(&self) -> (r: Result<Vec<u8>, BundleError>)
        requires
            self.head.uncompressed_size <= usize::MAX,
            !read_range_panics(
                self.head.uncompressed_size as nat,
                self.head.uncompressed_block_granularity as nat,
                self.blocks@.len(),
                0,
                self.head.uncompressed_size as nat,
            ),
            !range_decoder_panics(
                self.head.uncompressed_size as nat,
                self.head.uncompressed_block_granularity as nat,
                block_views(self.blocks@),
                0,
                self.head.uncompressed_size as nat,
            ),
        ensures
            match spec_read_range(
                self.head.uncompressed_size as nat,
                self.head.uncompressed_block_granularity as nat,
                block_views(self.blocks@),
                0,
                self.head.uncompressed_size as nat,
            ) {
                Some(v) => r matches Ok(w) && w@ == v,
                None => r == Err::<Vec<u8>, BundleError>(BundleError::DecompressFailed),
            },
            r matches Ok(w) ==> w@.len() == self.head.uncompressed_size && forall|j: int|
                0 <= j < self.head.uncompressed_size ==> w@[j] == content_byte(
                    block_views(self.blocks@),
                    self.head.uncompressed_size as nat,
                    self.head.uncompressed_block_granularity as nat,
                    j as nat,
                ),
    {
        self.read_range(0, self.head.uncompressed_size as usize)
    }
}

/// A panic among the first `i` chunks is a panic among the first `j`.
proof fn lemma_chunks_panic_grows(blocks: Seq<Seq<u8>>, start: nat, buf: nat, bs: nat, i: nat, j: nat)
    requires
        i <= j,
    ensures
        chunks_panic(blocks, start, buf, bs, i) ==> chunks_panic(blocks, start, buf, bs, j),
    decreases j - i,
{
    if i < j {
        lemma_chunks_panic_grows(blocks, start, buf, bs, i, (j - 1) as nat);
    }
}

/// Once a chunk fails to decompress, every longer run of chunks fails.
proof fn lemma_chunks_fail(blocks: Seq<Seq<u8>>, start: nat, buf: nat, bs: nat, i: nat, j: nat)
    requires
        i <= j,
        decompress_chunks(blocks, start, buf, bs, i) is None,
    ensures
        decompress_chunks(blocks, start, buf, bs, j) is None,
    decreases j - i,
{
    if i < j {
        lemma_chunks_fail(blocks, start, buf, bs, i, (j - 1) as nat);
    }
}

} // verus!
