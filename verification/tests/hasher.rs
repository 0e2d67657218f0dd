use std::hash::{BuildHasher, Hasher};

use poe_data_tools::hasher::{BuildHasherEx, BuildMurmurHash64A, MurmurHash64A};

const SEED: u64 = 0x1337b33f;

#[test]
fn finish_hashes_written_bytes() {
    let mut h = MurmurHash64A::new(SEED);
    h.write(b"data/mods.datc64");
    assert_eq!(h.finish(), murmurhash64::murmur_hash64a(b"data/mods.datc64", SEED));
}

#[test]
fn writes_concatenate() {
    let mut split = MurmurHash64A::new(SEED);
    split.write(b"art/");
    split.write(b"textures");
    let mut whole = MurmurHash64A::new(SEED);
    whole.write(b"art/textures");
    assert_eq!(split.finish(), whole.finish());
}

#[test]
fn empty_hasher_hashes_nothing() {
    let h = MurmurHash64A::new(7);
    assert_eq!(h.finish(), murmurhash64::murmur_hash64a(b"", 7));
}

#[test]
fn hash_one_str_hashes_plain_bytes() {
    let b = BuildMurmurHash64A { seed: SEED };
    let s = "metadata/items/currency.it";
    assert_eq!(b.hash_one_str(s), murmurhash64::murmur_hash64a(s.as_bytes(), SEED));
    let mut h = b.build_hasher();
    h.write(s.as_bytes());
    assert_eq!(b.hash_one_str(s), h.finish());
}

#[test]
fn seed_changes_hash() {
    let a = BuildMurmurHash64A { seed: 1 }.hash_one_str("abc");
    let b = BuildMurmurHash64A { seed: 2 }.hash_one_str("abc");
    assert_ne!(a, b);
}
