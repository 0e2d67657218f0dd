//! Finding files in the bundle index: a file is known by the hash of its lower-cased path, and
//! lives at an offset inside one bundle.
use vstd::prelude::*;
use std::collections::HashMap;
use std::hash::{BuildHasher, Hasher};
use crate::bundle::{
    block_views, content_byte, range_decoder_panics, read_range_panics, spec_read_range, BundleError, BundleFile,
};
use crate::dat::lookup::{ascii_lower, ascii_lower_char, is_ascii_text, lowercase, to_lowercase};
use crate::hasher::{murmur_hash64a, BuildMurmurHash64A};
use crate::text::chars_of;
use crate::utf16::string_from_chars;
use super::cache::lemma_filter_none;
use vstd::string::StringSliceAdditionalSpecFns;

verus! {

broadcast use vstd::std_specs::hash::group_hash_axioms;

/// The seed of the file path hash.
pub const PATH_HASH_SEED: u64 = 0x1337b33f;

/// Where a file's bytes are: which bundle, and where inside its uncompressed content.
#[derive(Debug, Clone, Copy, PartialEq, Eq, Structural)]
pub struct FileInfo {
    pub hash: u64,
    pub bundle_index: u32,
    pub offset: u32,
    pub size: u32,
}

/// A bundle of the index.
pub struct BundleInfo {
    pub name: String,
}

/// The bundle index: the bundles and the files they hold.
pub struct BundleIndex {
    pub bundles: Vec<BundleInfo>,
    pub files: Vec<FileInfo>,
}

/// The hash under which the index knows the file at `path`: the path is lower-cased first.
pub open spec fn spec_path_hash(path: Seq<char>) -> u64 {
    murmur_hash64a(vstd::utf8::encode_utf8(lowercase(path)), PATH_HASH_SEED)
}

/// The hash of an ASCII path: that of its ASCII lower case.
pub open spec fn ascii_path_hash(path: Seq<char>) -> u64 {
    murmur_hash64a(vstd::utf8::encode_utf8(ascii_lower(path)), PATH_HASH_SEED)
}

/// Compute the hash of a file path, as the index stores it
pub fn path_hash(path: &str) -> (h: u64)
    ensures
        h == spec_path_hash(path@),
        is_ascii_text(path@) ==> h == ascii_path_hash(path@),
{
    let hasher_builder = BuildMurmurHash64A { seed: PATH_HASH_SEED };
    let lower = to_lowercase(path);
    let lower_str = lower.as_str();
    let bytes = lower_str.as_bytes();
    let mut hasher = hasher_builder.build_hasher();
    hasher.write(bytes);
    assert(hasher.written() =~= vstd::utf8::encode_utf8(lowercase(path@)));
    hasher.finish()
}

/// File hash -> position in the index; where hashes repeat, the last file wins.
pub open spec fn lookup_map(files: Seq<FileInfo>) -> Map<u64, usize>
    decreases files.len(),
{
    if files.len() == 0 {
        Map::empty()
    } else {
        lookup_map(files.drop_last()).insert(files.last().hash, (files.len() - 1) as usize)
    }
}

/// The lookup table from file hash to position in the index.
pub fn build_lookup(files: &Vec<FileInfo>) -> (r: HashMap<u64, usize>)
    ensures
        r@ == lookup_map(files@),
{
    let mut lut: HashMap<u64, usize> = HashMap::new();
    let mut i: usize = 0;
    assert(files@.take(0) =~= Seq::<FileInfo>::empty());
    while i < files.len()
        invariant
            i <= files@.len(),
            lut@ == lookup_map(files@.take(i as int)),
        decreases files@.len() - i,
    {
        lut.insert(files[i].hash, i);
        assert(files@.take(i + 1).drop_last() =~= files@.take(i as int));
        i = i + 1;
    }
    assert(files@.take(files@.len() as int) =~= files@);
    lut
}

/// The position in the index of the file with hash `h`, if the lookup table knows it.
pub fn lookup_hash(lut: &HashMap<u64, usize>, h: u64) -> (r: Option<usize>)
    ensures
        match r {
            Some(i) => lut@.contains_key(h) && lut@[h] == i,
            None => !lut@.contains_key(h),
        },
{
    match lut.get(&h) {
        Some(i) => Some(*i),
        None => None,
    }
}

/// The file that the index holds under hash `h`, if any.
pub open spec fn file_by_hash(files: Seq<FileInfo>, h: u64) -> Option<FileInfo> {
    let m = lookup_map(files);
    if m.contains_key(h) {
        Some(files[m[h] as int])
    } else {
        None
    }
}

/// The information of the file at `path`, if the index knows it.
pub fn file_for_path(index: &BundleIndex, lut: &HashMap<u64, usize>, path: &str) -> (r: Option<FileInfo>)
    requires
        lut@ == lookup_map(index.files@),
    ensures
        match r {
            Some(f) => lookup_map(index.files@).contains_key(spec_path_hash(path@)) && f
                == index.files@[lookup_map(index.files@)[spec_path_hash(path@)] as int],
            None => !lookup_map(index.files@).contains_key(spec_path_hash(path@)),
        },
        is_ascii_text(path@) ==> r == file_by_hash(index.files@, ascii_path_hash(path@)),
{
    let h = path_hash(path);
    match lookup_hash(lut, h) {
        Some(i) => {
            let n = index.files.len();
            proof {
                lemma_lookup_in_range(index.files@, h);
            }
            Some(index.files[i])
        },
        None => None,
    }
}

/// Positions in the lookup table are positions of the index, holding the hash they are found by.
pub proof fn lemma_lookup_in_range(files: Seq<FileInfo>, h: u64)
    requires
        files.len() <= usize::MAX,
    ensures
        lookup_map(files).contains_key(h) ==> lookup_map(files)[h] < files.len() && files[lookup_map(
            files,
        )[h] as int].hash == h,
    decreases files.len(),
{
    if files.len() > 0 {
        lemma_lookup_in_range(files.drop_last(), h);
        if h != files.last().hash && lookup_map(files.drop_last()).contains_key(h) {
            let k = lookup_map(files.drop_last())[h];
            assert(files.drop_last()[k as int] == files[k as int]);
        }
    }
}

/// The bytes of a file, read from `bundle`, the bundle that the index places it in: the range
/// `offset..offset + size` of the bundle's uncompressed content.
pub fn read_file(bundle: &BundleFile, file: &FileInfo) -> (r: Result<Vec<u8>, BundleError>)
    requires
        bundle.head.uncompressed_size <= usize::MAX,
        !read_range_panics(
            bundle.head.uncompressed_size as nat,
            bundle.head.uncompressed_block_granularity as nat,
            bundle.blocks@.len(),
            file.offset as nat,
            file.size as nat,
        ),
        !range_decoder_panics(
            bundle.head.uncompressed_size as nat,
            bundle.head.uncompressed_block_granularity as nat,
            block_views(bundle.blocks@),
            file.offset as nat,
            file.size as nat,
        ),
    ensures
        match spec_read_range(
            bundle.head.uncompressed_size as nat,
            bundle.head.uncompressed_block_granularity as nat,
            block_views(bundle.blocks@),
            file.offset as nat,
            file.size as nat,
        ) {
            Some(v) => r matches Ok(w) && w@ == v,
            None => r == Err::<Vec<u8>, BundleError>(BundleError::DecompressFailed),
        },
        r matches Ok(w) ==> w@.len() == file.size && forall|j: int|
            0 <= j < file.size ==> w@[j] == content_byte(
                block_views(bundle.blocks@),
                bundle.head.uncompressed_size as nat,
                bundle.head.uncompressed_block_granularity as nat,
                (file.offset + j) as nat,
            ),
{
    bundle.read_range(file.offset as usize, file.size as usize)
}

/// The path of a bundle's file on the CDN: "Bundles2/<name>.bundle.bin".
pub open spec fn spec_bundle_path(name: Seq<char>) -> Seq<char> {
    "Bundles2/"@ + name + ".bundle.bin"@
}

/// The path of the bundle with this name.
pub fn bundle_path(name: &str) -> (r: String)
    ensures
        r@ == spec_bundle_path(name@),
{
    let mut chars = chars_of("Bundles2/");
    let mut middle = chars_of(name);
    chars.append(&mut middle);
    let mut tail = chars_of(".bundle.bin");
    chars.append(&mut tail);
    string_from_chars(chars.as_slice())
}

/// The file the index holds at `path`, if any.
pub open spec fn found_file(files: Seq<FileInfo>, path: Seq<char>) -> Option<FileInfo> {
    file_by_hash(files, spec_path_hash(path))
}

/// Whether two texts are the same but for the case of ASCII letters.
pub open spec fn same_but_ascii_case(p: Seq<char>, q: Seq<char>) -> bool {
    p.len() == q.len() && forall|i: int| 0 <= i < p.len() ==> ascii_lower_char(#[trigger] p[i])
        == ascii_lower_char(q[i])
}

/// Looking an ASCII path up ignores the case of its letters: two ASCII paths that differ only in
/// the case of ASCII letters have the same hash, so the index gives the same file, or none, for
/// both.
pub proof fn lemma_lookup_ignores_case(files: Seq<FileInfo>, p: Seq<char>, q: Seq<char>)
    requires
        is_ascii_text(p),
        is_ascii_text(q),
        same_but_ascii_case(p, q),
    ensures
        ascii_path_hash(p) == ascii_path_hash(q),
        file_by_hash(files, ascii_path_hash(p)) == file_by_hash(files, ascii_path_hash(q)),
{
    assert(ascii_lower(p) =~= ascii_lower(q));
}

/// An ASCII path's ASCII lower case is ASCII and differs from it only in case: looking up a path
/// and its lower case give the same file.
pub proof fn lemma_lower_case_path(p: Seq<char>)
    requires
        is_ascii_text(p),
    ensures
        is_ascii_text(ascii_lower(p)),
        same_but_ascii_case(p, ascii_lower(p)),
{
    let l = ascii_lower(p);
    assert forall|i: int| 0 <= i < l.len() implies (#[trigger] l[i] as u32) < 128 by {
        assert(l[i] == ascii_lower_char(p[i]));
        assert((p[i] as u32) < 128);
    }
    assert forall|i: int| 0 <= i < p.len() implies ascii_lower_char(#[trigger] p[i])
        == ascii_lower_char(l[i]) by {
        assert(l[i] == ascii_lower_char(p[i]));
    }
}

/// The paths the index holds, each with its file, in order.
pub open spec fn found_files(files: Seq<FileInfo>, paths: Seq<Seq<char>>) -> Seq<(Seq<char>, FileInfo)>
    decreases paths.len(),
{
    if paths.len() == 0 {
        Seq::empty()
    } else {
        let init = found_files(files, paths.drop_last());
        match found_file(files, paths.last()) {
            Some(f) => init.push((paths.last(), f)),
            None => init,
        }
    }
}

/// The paths the index does not hold, in order.
pub open spec fn missing_paths(files: Seq<FileInfo>, paths: Seq<Seq<char>>) -> Seq<Seq<char>>
    decreases paths.len(),
{
    if paths.len() == 0 {
        Seq::empty()
    } else {
        let init = missing_paths(files, paths.drop_last());
        match found_file(files, paths.last()) {
            Some(_) => init,
            None => init.push(paths.last()),
        }
    }
}

/// Holds of files in bundle `b`.
pub open spec fn in_bundle(b: u32) -> spec_fn((Seq<char>, FileInfo)) -> bool {
    |p: (Seq<char>, FileInfo)| p.1.bundle_index == b
}

/// The files to read from one bundle.
pub struct BundleGroup {
    pub bundle_index: u32,
    /// Where the bundle is on the CDN
    pub bundle_path: String,
    /// The requested paths in this bundle, with their files, in request order
    pub files: Vec<(String, FileInfo)>,
}

/// How to read a batch of paths: the paths the index does not hold, and the others grouped by
/// the bundle that holds them.
pub struct BatchPlan {
    pub missing: Vec<String>,
    pub groups: Vec<BundleGroup>,
}

/// The paths and files of a group.
pub open spec fn group_files(g: BundleGroup) -> Seq<(Seq<char>, FileInfo)> {
    g.files@.map_values(|p: (String, FileInfo)| (p.0@, p.1))
}

/// The groups hold exactly the found files, each group those of one bundle, in request order.
pub open spec fn groups_cover(groups: Seq<BundleGroup>, found: Seq<(Seq<char>, FileInfo)>) -> bool {
    &&& forall|g: int|
        0 <= g < groups.len() ==> group_files(#[trigger] groups[g]) == found.filter(
            in_bundle(groups[g].bundle_index),
        )
    &&& forall|g: int, h: int|
        0 <= g < h < groups.len() ==> #[trigger] groups[g].bundle_index
            != #[trigger] groups[h].bundle_index
    &&& forall|k: int|
        0 <= k < found.len() ==> exists|g: int|
            0 <= g < groups.len() && #[trigger] groups[g].bundle_index == (#[trigger] found[k]).1.bundle_index
}

/// Whether every held path's bundle is in the index (reading the batch panics otherwise).
pub open spec fn bundles_known(index: BundleIndex, paths: Seq<Seq<char>>) -> bool {
    forall|k: int|
        0 <= k < found_files(index.files@, paths).len() ==> (#[trigger] found_files(
            index.files@,
            paths,
        )[k]).1.bundle_index < index.bundles@.len()
}

/// Groups the files of a batch read by bundle, so that each bundle is loaded once. A batch read
/// does not keep the order of the paths given: the order of the groups is left open.
pub fn plan_batch(index: &BundleIndex, lut: &HashMap<u64, usize>, paths: &Vec<String>) -> (r: BatchPlan)
    requires
        lut@ == lookup_map(index.files@),
        bundles_known(*index, paths.deep_view()),
    ensures
        r.missing.deep_view() == missing_paths(index.files@, paths.deep_view()),
        groups_cover(r.groups@, found_files(index.files@, paths.deep_view())),
        forall|g: int|
            0 <= g < r.groups@.len() ==> (#[trigger] r.groups@[g]).bundle_index < index.bundles@.len()
                && r.groups@[g].bundle_path@ == spec_bundle_path(
                index.bundles@[r.groups@[g].bundle_index as int].name@,
            ),
{
    let ghost pv = paths.deep_view();
    let mut missing: Vec<String> = Vec::new();
    let mut groups: Vec<BundleGroup> = Vec::new();
    let mut i: usize = 0;
    assert(pv.take(0) =~= Seq::<Seq<char>>::empty());
    assert(missing.deep_view() =~= Seq::<Seq<char>>::empty());
    while i < paths.len()
        invariant
            i <= paths@.len(),
            pv == paths.deep_view(),
            lut@ == lookup_map(index.files@),
            bundles_known(*index, pv),
            missing.deep_view() == missing_paths(index.files@, pv.take(i as int)),
            groups_cover(groups@, found_files(index.files@, pv.take(i as int))),
            forall|g: int|
                0 <= g < groups@.len() ==> (#[trigger] groups@[g]).bundle_index
                    < index.bundles@.len() && groups@[g].bundle_path@ == spec_bundle_path(
                    index.bundles@[groups@[g].bundle_index as int].name@,
                ),
            found_files(index.files@, pv.take(i as int)).len() <= found_files(index.files@, pv).len(),
            found_files(index.files@, pv.take(i as int)) == found_files(index.files@, pv).take(
                found_files(index.files@, pv.take(i as int)).len() as int,
            ),
        decreases paths@.len() - i,
    {
        let path = &paths[i];
        assert(pv[i as int] == path@);
        assert(pv.take(i + 1).drop_last() =~= pv.take(i as int));
        let ghost before = found_files(index.files@, pv.take(i as int));
        match file_for_path(index, lut, path.as_str()) {
            None => {
                let ghost mv = missing.deep_view();
                missing.push(path.clone());
                assert(missing.deep_view() =~= mv.push(path@));
            },
            Some(info) => {
                let ghost item = (path@, info);
                let ghost after = before.push(item);
                assert(found_files(index.files@, pv.take(i + 1)) == after);
                proof {
                    lemma_found_prefix(index.files@, pv, i + 1);
                    assert(after[before.len() as int] == item);
                    assert(found_files(index.files@, pv)[before.len() as int] == item);
                    assert(info.bundle_index < index.bundles@.len());
                }
                let b = info.bundle_index;
                let mut j: usize = 0;
                while j < groups.len() && groups[j].bundle_index != b
                    invariant
                        j <= groups@.len(),
                        forall|g: int| 0 <= g < j ==> (#[trigger] groups@[g]).bundle_index != b,
                    decreases groups@.len() - j,
                {
                    j = j + 1;
                }
                let entry = (path.clone(), info);
                if j < groups.len() {
                    let ghost old_groups = groups@;
                    let mut g = groups.remove(j);
                    let ghost gf = group_files(g);
                    g.files.push(entry);
                    assert(group_files(g) =~= gf.push(item));
                    groups.insert(j, g);
                    proof {
                        assert(groups@ =~= old_groups.update(j as int, g));
                        before.lemma_filter_push(item, in_bundle(b));
                        assert forall|h: int| 0 <= h < groups@.len() implies group_files(
                            #[trigger] groups@[h],
                        ) == after.filter(in_bundle(groups@[h].bundle_index)) by {
                            before.lemma_filter_push(item, in_bundle(groups@[h].bundle_index));
                        }
                        assert forall|k: int| 0 <= k < after.len() implies exists|h: int|
                            0 <= h < groups@.len() && #[trigger] groups@[h].bundle_index == (
                            #[trigger] after[k]).1.bundle_index by {
                            if k < before.len() {
                                assert(after[k] == before[k]);
                                let h = choose|h: int|
                                    0 <= h < old_groups.len() && #[trigger] old_groups[h].bundle_index
                                        == before[k].1.bundle_index;
                                assert(groups@[h].bundle_index == old_groups[h].bundle_index);
                            } else {
                                assert(groups@[j as int].bundle_index == b);
                            }
                        }
                    }
                } else {
                    let ghost old_groups = groups@;
                    let bundle_name = &index.bundles[b as usize].name;
                    let bp = bundle_path(bundle_name.as_str());
                    let mut files: Vec<(String, FileInfo)> = Vec::new();
                    files.push(entry);
                    let g = BundleGroup { bundle_index: b, bundle_path: bp, files };
                    groups.push(g);
                    proof {
                        assert forall|k: int| 0 <= k < before.len() implies !(in_bundle(b))(
                            #[trigger] before[k],
                        ) by {
                            let h = choose|h: int|
                                0 <= h < old_groups.len() && #[trigger] old_groups[h].bundle_index
                                    == before[k].1.bundle_index;
                        }
                        lemma_filter_none(before, in_bundle(b));
                        before.lemma_filter_push(item, in_bundle(b));
                        assert(group_files(g) =~= seq![item]);
                        assert(after.filter(in_bundle(b)) =~= seq![item]);
                        assert forall|h: int| 0 <= h < groups@.len() implies group_files(
                            #[trigger] groups@[h],
                        ) == after.filter(in_bundle(groups@[h].bundle_index)) by {
                            before.lemma_filter_push(item, in_bundle(groups@[h].bundle_index));
                            if h < old_groups.len() {
                                assert(groups@[h] == old_groups[h]);
                            }
                        }
                        assert forall|k: int| 0 <= k < after.len() implies exists|h: int|
                            0 <= h < groups@.len() && #[trigger] groups@[h].bundle_index == (
                            #[trigger] after[k]).1.bundle_index by {
                            if k < before.len() {
                                assert(after[k] == before[k]);
                                let h = choose|h: int|
                                    0 <= h < old_groups.len() && #[trigger] old_groups[h].bundle_index
                                        == before[k].1.bundle_index;
                                assert(groups@[h] == old_groups[h]);
                            } else {
                                assert(groups@[old_groups.len() as int].bundle_index == b);
                            }
                        }
                        assert forall|g1: int, g2: int| 0 <= g1 < g2 < groups@.len() implies #[trigger] groups@[g1].bundle_index
                            != #[trigger] groups@[g2].bundle_index by {
                            if g2 < old_groups.len() {
                                assert(groups@[g1] == old_groups[g1]);
                                assert(groups@[g2] == old_groups[g2]);
                            } else {
                                assert(groups@[g1] == old_groups[g1]);
                            }
                        }
                    }
                }
            },
        }
        proof {
            lemma_found_prefix(index.files@, pv, i + 1);
        }
        i = i + 1;
    }
    assert(pv.take(pv.len() as int) =~= pv);
    BatchPlan { missing, groups }
}

/// The files found among a prefix of the paths are a prefix of those found among all of them.
proof fn lemma_found_prefix(files: Seq<FileInfo>, paths: Seq<Seq<char>>, i: int)
    requires
        0 <= i <= paths.len(),
    ensures
        found_files(files, paths.take(i)).len() <= found_files(files, paths).len(),
        found_files(files, paths.take(i)) == found_files(files, paths).take(
            found_files(files, paths.take(i)).len() as int,
        ),
    decreases paths.len() - i,
{
    if i < paths.len() {
        lemma_found_prefix(files, paths, i + 1);
        assert(paths.take(i + 1).drop_last() =~= paths.take(i));
        let a = found_files(files, paths.take(i));
        let b = found_files(files, paths.take(i + 1));
        let all = found_files(files, paths);
        assert(a =~= all.take(a.len() as int));
    } else {
        assert(paths.take(i) =~= paths);
        let all = found_files(files, paths);
        assert(all.take(all.len() as int) =~= all);
    }
}

} // verus!
