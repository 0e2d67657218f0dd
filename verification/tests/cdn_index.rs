use std::hash::{BuildHasher, Hasher};

use poe_data_tools::fs::cdn::index::{
    build_lookup, bundle_path, file_for_path, lookup_hash, path_hash, plan_batch, BundleIndex,
    BundleInfo, FileInfo, PATH_HASH_SEED,
};
use poe_data_tools::hasher::BuildMurmurHash64A;

fn info(path: &str, bundle_index: u32, offset: u32) -> FileInfo {
    FileInfo { hash: path_hash(path), bundle_index, offset, size: 10 }
}

fn index() -> BundleIndex {
    BundleIndex {
        bundles: vec![
            BundleInfo { name: "Data/Base".to_string() },
            BundleInfo { name: "Art/Textures".to_string() },
        ],
        files: vec![
            info("data/mods.datc64", 0, 0),
            info("art/a.dds", 1, 0),
            info("data/tags.datc64", 0, 100),
            info("art/b.dds", 1, 50),
        ],
    }
}

#[test]
fn path_hash_lowercases() {
    let mut h = BuildMurmurHash64A { seed: PATH_HASH_SEED }.build_hasher();
    h.write(b"data/mods.datc64");
    assert_eq!(path_hash("Data/Mods.datc64"), h.finish());
    assert_eq!(path_hash("DATA/MODS.DATC64"), path_hash("data/mods.datc64"));
}

#[test]
fn lookup_by_path() {
    let idx = index();
    let lut = build_lookup(&idx.files);
    assert_eq!(lookup_hash(&lut, path_hash("art/b.dds")), Some(3));
    let f = file_for_path(&idx, &lut, "Data/Tags.datc64").unwrap();
    assert_eq!((f.bundle_index, f.offset), (0, 100));
    assert_eq!(file_for_path(&idx, &lut, "missing.txt"), None);
}

#[test]
fn lookup_ignores_case() {
    let idx = index();
    let lut = build_lookup(&idx.files);
    let found = file_for_path(&idx, &lut, "ART/A.DDS");
    assert_eq!(found, file_for_path(&idx, &lut, "art/a.dds"));
    assert_eq!(found, file_for_path(&idx, &lut, "Art/A.dds"));
    assert_eq!(found.map(|f| (f.bundle_index, f.offset)), Some((1, 0)));
    assert_eq!(file_for_path(&idx, &lut, "MISSING.TXT"), None);
}

#[test]
fn later_duplicates_win() {
    let files = vec![
        FileInfo { hash: 5, bundle_index: 0, offset: 0, size: 1 },
        FileInfo { hash: 5, bundle_index: 1, offset: 0, size: 1 },
    ];
    let lut = build_lookup(&files);
    assert_eq!(lookup_hash(&lut, 5), Some(1));
    assert_eq!(lookup_hash(&lut, 6), None);
}

#[test]
fn bundle_paths() {
    assert_eq!(bundle_path("Data/Base"), "Bundles2/Data/Base.bundle.bin");
}

#[test]
fn batch_groups_by_bundle() {
    let idx = index();
    let lut = build_lookup(&idx.files);
    let paths: Vec<String> = ["art/b.dds", "nope", "data/mods.datc64", "art/a.dds", "data/tags.datc64"]
        .iter()
        .map(|s| s.to_string())
        .collect();
    let plan = plan_batch(&idx, &lut, &paths);
    assert_eq!(plan.missing, vec!["nope".to_string()]);
    assert_eq!(plan.groups.len(), 2);
    assert_eq!(plan.groups[0].bundle_index, 1);
    assert_eq!(plan.groups[0].bundle_path, "Bundles2/Art/Textures.bundle.bin");
    let first: Vec<&str> = plan.groups[0].files.iter().map(|(p, _)| p.as_str()).collect();
    assert_eq!(first, vec!["art/b.dds", "art/a.dds"]);
    let second: Vec<&str> = plan.groups[1].files.iter().map(|(p, _)| p.as_str()).collect();
    assert_eq!(second, vec!["data/mods.datc64", "data/tags.datc64"]);
    assert_eq!(plan.groups[1].files[1].1.offset, 100);
}
