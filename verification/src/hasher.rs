//! The hash used by the game's file index: MurmurHash64A over a file path's bytes.
use vstd::prelude::*;
use std::hash::{BuildHasher, Hasher};
use vstd::string::StringSliceAdditionalSpecFns;

verus! {

/// The 64-bit MurmurHash2 (variant A) of `key` with `seed`, as `murmurhash64::murmur_hash64a`
/// computes it.
pub uninterp spec fn murmur_hash64a(key: Seq<u8>, seed: u64) -> u64;

/// Calls `murmurhash64::murmur_hash64a`. Its result is a function of the key's bytes and the
/// seed alone, named [`murmur_hash64a`]; what that function is, is not stated here.
#[verifier::external_body]
fn hash_bytes(key: &[u8], seed: u64) -> (h: u64)
    ensures
        h == murmur_hash64a(key@, seed),
{
    murmurhash64::murmur_hash64a(key, seed)
}

/// Hasher used internally by GGG: it collects the bytes written to it and hashes them all at
/// once.
pub struct MurmurHash64A {
    seed: u64,
    data: Vec<u8>,
}

impl MurmurHash64A {
    /// The seed the hasher was made with.
    pub closed spec fn seed(&self) -> u64 {
        self.seed
    }

    /// The bytes written so far, in order.
    pub closed spec fn written(&self) -> Seq<u8> {
        self.data@
    }

    pub fn new(seed: u64) -> (h: Self)
        ensures
            h.seed() == seed,
            h.written() == Seq::<u8>::empty(),
    {
        MurmurHash64A { seed, data: Vec::new() }
    }
}

impl Hasher for MurmurHash64A {
    fn finish(&self) -> (h: u64)
        ensures
            h == murmur_hash64a(self.written(), self.seed()),
    {
        hash_bytes(self.data.as_slice(), self.seed)
    }

    fn write(&mut self, bytes: &[u8])
        ensures
            final(self).seed() == old(self).seed(),
            final(self).written() == old(self).written() + bytes@,
    {
        let mut i: usize = 0;
        let ghost start = self.data@;
        while i < bytes.len()
            invariant
                i <= bytes@.len(),
                self.seed == old(self).seed,
                start == old(self).data@,
                self.data@ == start + bytes@.take(i as int),
            decreases bytes@.len() - i,
        {
            self.data.push(bytes[i]);
            i = i + 1;
            assert(self.data@ =~= start + bytes@.take(i as int));
        }
        assert(bytes@.take(bytes@.len() as int) =~= bytes@);
    }
}

/// Whether `states` are the hasher after each of a run of writes of `chunks`: a fresh hasher, then
/// one state per write, each with the seed kept and the chunk added to what was written, as
/// [`MurmurHash64A::new`] and `write` state.
pub open spec fn writes_of(states: Seq<MurmurHash64A>, chunks: Seq<Seq<u8>>) -> bool {
    &&& states.len() == chunks.len() + 1
    &&& states[0].written() == Seq::<u8>::empty()
    &&& forall|i: int|
        0 <= i < chunks.len() ==> (#[trigger] states[i + 1]).seed() == states[i].seed()
            && states[i + 1].written() == states[i].written() + chunks[i]
}

/// A fresh hasher that is written `chunks` one after the other hashes, on `finish`, the chunks
/// joined: writing in pieces is writing the whole.
pub proof fn lemma_writes_concatenate(states: Seq<MurmurHash64A>, chunks: Seq<Seq<u8>>)
    requires
        writes_of(states, chunks),
    ensures
        states.last().written() == chunks.flatten(),
        states.last().seed() == states[0].seed(),
        murmur_hash64a(states.last().written(), states.last().seed()) == murmur_hash64a(
            chunks.flatten(),
            states[0].seed(),
        ),
    decreases chunks.len(),
{
    chunks.lemma_flatten_and_flatten_alt_are_equivalent();
    if chunks.len() > 0 {
        let n = chunks.len();
        let prefix = states.take(n as int);
        let first = chunks.drop_last();
        assert(writes_of(prefix, first)) by {
            assert forall|i: int| 0 <= i < first.len() implies (#[trigger] prefix[i + 1]).seed()
                == prefix[i].seed() && prefix[i + 1].written() == prefix[i].written() + first[i] by {
                assert(states[i + 1].seed() == states[i].seed());
            }
        }
        lemma_writes_concatenate(prefix, first);
        first.lemma_flatten_and_flatten_alt_are_equivalent();
        assert(states[n as int].written() == states[n - 1].written() + chunks[n - 1]);
        assert(states.last() == states[n as int]);
    }
}

/// Builds [`MurmurHash64A`] hashers with a fixed seed.
pub struct BuildMurmurHash64A {
    pub seed: u64,
}

impl BuildHasher for BuildMurmurHash64A {
    type Hasher = MurmurHash64A;

    fn build_hasher(&self) -> (h: MurmurHash64A)
        ensures
            h.seed() == self.seed,
            h.written() == Seq::<u8>::empty(),
    {
        MurmurHash64A::new(self.seed)
    }
}

pub trait BuildHasherEx: BuildHasher {
    /// The hash of a string's bytes, as the hashers built here give it.
    spec fn spec_hash_bytes(&self, bytes: Seq<u8>) -> u64;

    /// Hash a string
    // NOTE: This is required because the str::hash hashse a length-prefixed set of bytes.
    // GGG's impl just hashes the bytes
    fn hash_one_str(&self, string: &str) -> (h: u64)
        ensures
            h == self.spec_hash_bytes(string.spec_bytes()),
    ;
}

impl BuildHasherEx for BuildMurmurHash64A {
    open spec fn spec_hash_bytes(&self, bytes: Seq<u8>) -> u64 {
        murmur_hash64a(bytes, self.seed)
    }

    fn hash_one_str(&self, string: &str) -> (h: u64)
        ensures
            h == murmur_hash64a(string.spec_bytes(), self.seed),
    {
        let mut hasher = self.build_hasher();
        hasher.write(string.as_bytes());
        assert(hasher.written() =~= string.spec_bytes());
        hasher.finish()
    }
}

} // verus!
