//! The local cache of CDN downloads: one folder per game patch, named by its version, beside the
//! folders of other patches that may hold the same file.
use vstd::prelude::*;
use super::patch_parts::{parse_patch_parts, spec_patch_parts};
use crate::text::str_eq;
use iterators_extended::bucket::Bucket;

verus! {

/// The last component of a path, as `std::path::Path::file_name` gives it (`None` for a path
/// that ends in `..` or is a root).
pub uninterp spec fn file_name_of(path: Seq<char>) -> Option<Seq<char>>;

/// Calls `std::path::Path::file_name` on `path` and takes the name as text (a name taken from
/// a `&str` is always valid UTF-8). The result depends on the path alone, named by
/// [`file_name_of`]; the component rules themselves are not stated here.
#[verifier::external_body]
fn path_file_name(path: &str) -> (r: Option<String>)
    ensures
        match r {
            Some(s) => file_name_of(path@) == Some(s@),
            None => file_name_of(path@) is None,
        },
{
    std::path::Path::new(path).file_name().and_then(|f| f.to_str()).map(|s| s.to_string())
}

/// A cache folder for a specific game version
pub struct CacheFolder {
    pub path: String,
    /// patch version components [major, minor, patch, ...]
    pub patch_parts: Vec<u64>,
}

/// Mathematical model of a [`CacheFolder`].
pub struct CacheFolderView {
    pub path: Seq<char>,
    pub parts: Seq<u64>,
}

impl View for CacheFolder {
    type V = CacheFolderView;

    open spec fn view(&self) -> CacheFolderView {
        CacheFolderView { path: self.path@, parts: self.patch_parts@ }
    }
}

/// Why a path is not a cache folder.
#[derive(Debug, Clone, Copy, PartialEq, Eq, Structural)]
pub enum CacheError {
    /// The path has no last component
    NoFolderName,
    /// The folder's name is not a patch version
    NotAPatchVersion,
}

/// The cache folder at `path`: its name must be a patch version.
pub open spec fn spec_from_path(path: Seq<char>) -> Result<CacheFolderView, CacheError> {
    match file_name_of(path) {
        None => Err(CacheError::NoFolderName),
        Some(name) => match spec_patch_parts(name) {
            None => Err(CacheError::NotAPatchVersion),
            Some(parts) => Ok(CacheFolderView { path, parts }),
        },
    }
}

/// Lexicographic order of patch versions: the first differing component decides, and a proper
/// prefix comes first.
pub open spec fn parts_less(a: Seq<u64>, b: Seq<u64>) -> bool
    decreases a.len(),
{
    if b.len() == 0 {
        false
    } else if a.len() == 0 {
        true
    } else if a[0] != b[0] {
        a[0] < b[0]
    } else {
        parts_less(a.drop_first(), b.drop_first())
    }
}

/// No version comes before itself, and of two versions at most one comes first.
pub proof fn lemma_parts_less_asymmetric(a: Seq<u64>, b: Seq<u64>)
    ensures
        !(parts_less(a, b) && parts_less(b, a)),
        !parts_less(a, a),
    decreases a.len(),
{
    if a.len() > 0 && b.len() > 0 && a[0] == b[0] {
        lemma_parts_less_asymmetric(a.drop_first(), b.drop_first());
    }
    if a.len() > 0 {
        lemma_parts_less_asymmetric(a.drop_first(), a.drop_first());
    }
}

/// The order is transitive.
pub proof fn lemma_parts_less_transitive(a: Seq<u64>, b: Seq<u64>, c: Seq<u64>)
    requires
        parts_less(a, b),
        parts_less(b, c),
    ensures
        parts_less(a, c),
    decreases a.len(),
{
    if a.len() > 0 && b.len() > 0 && c.len() > 0 && a[0] == b[0] && b[0] == c[0] {
        lemma_parts_less_transitive(a.drop_first(), b.drop_first(), c.drop_first());
    }
}

/// Of two different versions, one comes first.
pub proof fn lemma_parts_less_total(a: Seq<u64>, b: Seq<u64>)
    ensures
        a == b || parts_less(a, b) || parts_less(b, a),
    decreases a.len(),
{
    if a.len() > 0 && b.len() > 0 && a[0] == b[0] {
        lemma_parts_less_total(a.drop_first(), b.drop_first());
        if a.drop_first() == b.drop_first() {
            assert(a =~= seq![a[0]] + a.drop_first());
            assert(b =~= seq![b[0]] + b.drop_first());
        }
    }
    if a.len() == 0 && b.len() == 0 {
        assert(a =~= b);
    }
}

/// Whether version `a` comes before version `b`.
pub fn parts_before(a: &Vec<u64>, b: &Vec<u64>) -> (r: bool)
    ensures
        r == parts_less(a@, b@),
{
    let mut i: usize = 0;
    assert(a@.skip(0) =~= a@);
    assert(b@.skip(0) =~= b@);
    while i < a.len() && i < b.len()
        invariant
            i <= a@.len(),
            i <= b@.len(),
            parts_less(a@, b@) == parts_less(a@.skip(i as int), b@.skip(i as int)),
        decreases a@.len() - i,
    {
        if a[i] != b[i] {
            return a[i] < b[i];
        }
        assert(a@.skip(i as int).drop_first() =~= a@.skip(i + 1));
        assert(b@.skip(i as int).drop_first() =~= b@.skip(i + 1));
        i = i + 1;
    }
    i == a.len() && i < b.len()
}

impl CacheFolder {
    /// The cache folder at `path`, whose name must be a patch version.
    pub fn from_path(path: String) -> (r: Result<CacheFolder, CacheError>)
        ensures
            match spec_from_path(path@) {
                Ok(v) => r matches Ok(f) && f@ == v,
                Err(e) => r == Err::<CacheFolder, CacheError>(e),
            },
    {
        let folder_name = match path_file_name(path.as_str()) {
            Some(n) => n,
            None => {
                return Err(CacheError::NoFolderName);
            },
        };
        match parse_patch_parts(folder_name.as_str()) {
            Ok(patch_parts) => Ok(CacheFolder { path, patch_parts }),
            Err(_) => Err(CacheError::NotAPatchVersion),
        }
    }

    /// Whether this folder's patch comes before `other`'s.
    pub fn is_older_than(&self, other: &CacheFolder) -> (r: bool)
        ensures
            r == parts_less(self@.parts, other@.parts),
    {
        parts_before(&self.patch_parts, &other.patch_parts)
    }
}

/// The views of folders.
pub open spec fn views(s: Seq<CacheFolder>) -> Seq<CacheFolderView> {
    s.map_values(|c: CacheFolder| c@)
}

/// Holds of folders of patch `k`.
pub open spec fn parts_are(k: Seq<u64>) -> spec_fn(CacheFolderView) -> bool {
    |c: CacheFolderView| c.parts == k
}

/// The folders of patch `k`, in order.
pub open spec fn with_parts(s: Seq<CacheFolderView>, k: Seq<u64>) -> Seq<CacheFolderView> {
    s.filter(parts_are(k))
}

/// Oldest patch first.
pub open spec fn ascending(s: Seq<CacheFolderView>) -> bool {
    forall|i: int, j: int| 0 <= i < j < s.len() ==> !parts_less(#[trigger] s[j].parts, #[trigger] s[i].parts)
}

/// `out` is `input` sorted by patch, oldest first, with the folders of one patch in the order
/// `input` has them (a stable sort).
pub open spec fn sorted_stably(out: Seq<CacheFolderView>, input: Seq<CacheFolderView>) -> bool {
    &&& ascending(out)
    &&& forall|k: Seq<u64>| #[trigger] with_parts(out, k) == with_parts(input, k)
}

/// Holds of folders older than patch `k`.
pub open spec fn older_than(k: Seq<u64>) -> spec_fn(CacheFolderView) -> bool {
    |c: CacheFolderView| parts_less(c.parts, k)
}

/// Holds of folders of patch `k` or newer.
pub open spec fn not_older_than(k: Seq<u64>) -> spec_fn(CacheFolderView) -> bool {
    |c: CacheFolderView| !parts_less(c.parts, k)
}

/// The cache folders among the sibling paths: those whose name is a patch version, apart from
/// the primary folder itself, in the order given.
pub open spec fn candidates(siblings: Seq<Seq<char>>, primary_path: Seq<char>) -> Seq<CacheFolderView>
    decreases siblings.len(),
{
    if siblings.len() == 0 {
        Seq::empty()
    } else {
        let init = candidates(siblings.drop_last(), primary_path);
        match spec_from_path(siblings.last()) {
            Ok(c) => if c.path != primary_path {
                init.push(c)
            } else {
                init
            },
            Err(_) => init,
        }
    }
}

/// A filter keeps nothing of a sequence none of whose items it holds of.
pub(crate) proof fn lemma_filter_none<A>(s: Seq<A>, pred: spec_fn(A) -> bool)
    requires
        forall|i: int| 0 <= i < s.len() ==> !pred(#[trigger] s[i]),
    ensures
        s.filter(pred) == Seq::<A>::empty(),
    decreases s.len(),
{
    reveal(Seq::filter);
    if s.len() > 0 {
        lemma_filter_none(s.drop_last(), pred);
    }
}

/// Inserting `x` before the first folder not older than it keeps the order.
proof fn lemma_insert_sorted(ov: Seq<CacheFolderView>, p: int, x: CacheFolderView)
    requires
        0 <= p <= ov.len(),
        ascending(ov),
        forall|q: int| 0 <= q < p ==> parts_less(#[trigger] ov[q].parts, x.parts),
        p < ov.len() ==> !parts_less(ov[p].parts, x.parts),
    ensures
        ascending(ov.insert(p, x)),
        forall|k: Seq<u64>| #[trigger] with_parts(ov.insert(p, x), k) == with_parts(seq![x] + ov, k),
{
    let nv = ov.insert(p, x);
    assert forall|i: int, j: int| 0 <= i < j < nv.len() implies !parts_less(
        #[trigger] nv[j].parts,
        #[trigger] nv[i].parts,
    ) by {
        if j < p {
            assert(nv[i] == ov[i] && nv[j] == ov[j]);
        } else if j == p {
            assert(nv[i] == ov[i]);
            lemma_parts_less_asymmetric(ov[i].parts, x.parts);
        } else if i < p {
            assert(nv[i] == ov[i] && nv[j] == ov[j - 1]);
            // ov[i] < x <= ov[p] <= ov[j - 1]
            lemma_parts_less_total(ov[p].parts, x.parts);
            lemma_parts_less_total(ov[j - 1].parts, ov[p].parts);
            if j - 1 > p {
                assert(!parts_less(ov[j - 1].parts, ov[p].parts));
            }
            if parts_less(ov[j - 1].parts, ov[i].parts) {
                if ov[p].parts == x.parts {
                    lemma_parts_less_transitive(ov[i].parts, x.parts, ov[j - 1].parts);
                } else {
                    lemma_parts_less_transitive(ov[i].parts, x.parts, ov[p].parts);
                    if ov[j - 1].parts != ov[p].parts {
                        lemma_parts_less_transitive(ov[i].parts, ov[p].parts, ov[j - 1].parts);
                    }
                }
                lemma_parts_less_asymmetric(ov[i].parts, ov[j - 1].parts);
            }
        } else if i == p {
            assert(nv[i] == x && nv[j] == ov[j - 1]);
            // x <= ov[p] <= ov[j - 1]
            if parts_less(ov[j - 1].parts, x.parts) {
                lemma_parts_less_total(ov[j - 1].parts, ov[p].parts);
                if j - 1 > p {
                    assert(!parts_less(ov[j - 1].parts, ov[p].parts));
                }
                if ov[j - 1].parts != ov[p].parts {
                    lemma_parts_less_transitive(ov[p].parts, ov[j - 1].parts, x.parts);
                }
            }
        } else {
            assert(nv[i] == ov[i - 1] && nv[j] == ov[j - 1]);
        }
    }
    assert(nv =~= ov.take(p) + (seq![x] + ov.skip(p)));
    assert(ov =~= ov.take(p) + ov.skip(p));
    assert forall|k: Seq<u64>| #[trigger] with_parts(nv, k) == with_parts(seq![x] + ov, k) by {
        let pred = parts_are(k);
        Seq::filter_distributes_over_add(ov.take(p), seq![x] + ov.skip(p), pred);
        ov.skip(p).lemma_filter_prepend(x, pred);
        ov.lemma_filter_prepend(x, pred);
        Seq::filter_distributes_over_add(ov.take(p), ov.skip(p), pred);
        if x.parts == k {
            assert forall|q: int| 0 <= q < ov.take(p).len() implies !pred(#[trigger] ov.take(p)[q]) by {
                assert(ov.take(p)[q] == ov[q]);
                lemma_parts_less_asymmetric(ov[q].parts, x.parts);
            }
            lemma_filter_none(ov.take(p), pred);
            assert(with_parts(nv, k) =~= with_parts(seq![x] + ov, k));
        } else {
            assert(with_parts(nv, k) =~= with_parts(seq![x] + ov, k));
        }
    }
}

/// Sorts folders by patch, oldest first, keeping the order of folders of the same patch.
pub fn sort_by_patch(v: Vec<CacheFolder>) -> (r: Vec<CacheFolder>)
    ensures
        sorted_stably(views(r@), views(v@)),
{
    let ghost input = views(v@);
    let ghost n = v@.len() as int;
    let mut rest = v;
    let mut out: Vec<CacheFolder> = Vec::new();
    assert(input.skip(n) =~= Seq::<CacheFolderView>::empty());
    assert(views(out@) =~= Seq::<CacheFolderView>::empty());
    while rest.len() > 0
        invariant
            rest@.len() <= n,
            n == input.len(),
            views(rest@) == input.take(rest@.len() as int),
            ascending(views(out@)),
            forall|k: Seq<u64>| #[trigger] with_parts(views(out@), k) == with_parts(
                input.skip(rest@.len() as int),
                k,
            ),
        decreases rest@.len(),
    {
        let ghost i = rest@.len() as int;
        let ghost old_rest = rest@;
        assert(views(old_rest)[i - 1] == old_rest[i - 1]@);
        let x = match rest.pop() {
            Some(x) => x,
            None => {
                return out;
            },
        };
        assert(views(rest@) =~= input.take(i - 1));
        assert(x@ == input[i - 1]);
        let mut p: usize = 0;
        while p < out.len() && out[p].is_older_than(&x)
            invariant
                p <= out@.len(),
                forall|q: int| 0 <= q < p ==> parts_less(#[trigger] out@[q]@.parts, x@.parts),
            decreases out@.len() - p,
        {
            p = p + 1;
        }
        let ghost ov = views(out@);
        proof {
            assert forall|q: int| 0 <= q < p implies parts_less(#[trigger] ov[q].parts, x@.parts) by {
                assert(ov[q] == out@[q]@);
            }
            if p < out@.len() {
                assert(ov[p as int] == out@[p as int]@);
            }
            lemma_insert_sorted(ov, p as int, x@);
            assert(input.skip(i - 1) =~= seq![x@] + input.skip(i));
            assert forall|k: Seq<u64>| #[trigger] with_parts(seq![x@] + ov, k) == with_parts(
                input.skip(i - 1),
                k,
            ) by {
                ov.lemma_filter_prepend(x@, parts_are(k));
                input.skip(i).lemma_filter_prepend(x@, parts_are(k));
                assert(with_parts(ov, k) == with_parts(input.skip(i), k));
                assert(input.skip(i - 1) == seq![x@] + input.skip(i));
            }
        }
        out.insert(p, x);
        assert(views(out@) =~= ov.insert(p as int, x@));
    }
    assert(input.skip(0) =~= input);
    out
}

/// The folders in reverse order.
fn reverse_folders(v: Vec<CacheFolder>) -> (r: Vec<CacheFolder>)
    ensures
        views(r@) == views(v@).reverse(),
{
    let ghost input = views(v@);
    let ghost n = v@.len() as int;
    let mut rest = v;
    let mut out: Vec<CacheFolder> = Vec::new();
    while rest.len() > 0
        invariant
            rest@.len() <= n,
            n == input.len(),
            views(rest@) == input.take(rest@.len() as int),
            views(out@) == input.skip(rest@.len() as int).reverse(),
        decreases rest@.len(),
    {
        let ghost i = rest@.len() as int;
        let ghost old_rest = rest@;
        assert(views(old_rest)[i - 1] == old_rest[i - 1]@);
        match rest.pop() {
            Some(x) => {
                assert(views(rest@) =~= input.take(i - 1));
                let ghost before = views(out@);
                assert(x@ == input[i - 1]);
                out.push(x);
                assert(views(out@) =~= before.push(x@));
                assert(views(out@) =~= input.skip(i - 1).reverse());
            },
            None => {},
        }
    }
    assert(input.skip(0) =~= input);
    out
}

/// 0 for a folder older than `primary`, 1 otherwise.
fn age_bucket(cache: &CacheFolder, primary: &CacheFolder) -> (r: usize)
    ensures
        r == (if parts_less(cache@.parts, primary@.parts) {
            0usize
        } else {
            1usize
        }),
{
    if cache.is_older_than(primary) {
        0
    } else {
        1
    }
}

/// Calls `iterators_extended::bucket::Bucket::bucket_arr` with two buckets, indexed by
/// [`age_bucket`]: per its source, each folder is pushed, in order, onto the bucket its index
/// names, so the first bucket holds the folders older than `primary` and the second the rest,
/// each in the order given.
#[verifier::external_body]
fn split_by_age(folders: Vec<CacheFolder>, primary: &CacheFolder) -> (r: (Vec<CacheFolder>, Vec<CacheFolder>))
    ensures
        views(r.0@) == views(folders@).filter(older_than(primary@.parts)),
        views(r.1@) == views(folders@).filter(not_older_than(primary@.parts)),
{
    let [old, new] = folders.into_iter().bucket_arr(|c| age_bucket(c, primary));
    (old, new)
}

/// Prepares two lists of backup cache dirs, both ordered by recency to the current patch: the
/// sibling folders of older patches, newest first, and those of the same or newer patches,
/// oldest first. Siblings whose name is not a patch version, and the primary folder itself,
/// are left out.
pub fn get_fallback_cache_dirs(siblings: Vec<String>, primary_cache: &CacheFolder) -> (r: (
    Vec<CacheFolder>,
    Vec<CacheFolder>,
))
    ensures
        sorted_stably(
            views(r.0@).reverse(),
            candidates(siblings.deep_view(), primary_cache@.path).filter(
                older_than(primary_cache@.parts),
            ),
        ),
        sorted_stably(
            views(r.1@),
            candidates(siblings.deep_view(), primary_cache@.path).filter(
                not_older_than(primary_cache@.parts),
            ),
        ),
{
    let ghost sib = siblings.deep_view();
    let mut found: Vec<CacheFolder> = Vec::new();
    let mut i: usize = 0;
    assert(sib.take(0) =~= Seq::<Seq<char>>::empty());
    while i < siblings.len()
        invariant
            i <= siblings@.len(),
            sib == siblings.deep_view(),
            views(found@) == candidates(sib.take(i as int), primary_cache@.path),
        decreases siblings@.len() - i,
    {
        assert(sib.take(i + 1).drop_last() =~= sib.take(i as int));
        assert(sib[i as int] == siblings@[i as int]@);
        match CacheFolder::from_path(siblings[i].clone()) {
            Ok(cache) => {
                if !str_eq(cache.path.as_str(), primary_cache.path.as_str()) {
                    let ghost before = views(found@);
                    found.push(cache);
                    assert(views(found@) =~= before.push(cache@));
                }
            },
            Err(_) => {},
        }
        i = i + 1;
    }
    assert(sib.take(sib.len() as int) =~= sib);
    let (old, new) = split_by_age(found, primary_cache);
    let old = sort_by_patch(old);
    let new = sort_by_patch(new);
    let ghost sorted_old = views(old@);
    let old = reverse_folders(old);
    assert(sorted_old.reverse().reverse() =~= sorted_old);
    (old, new)
}

/// `base` joined with `stub`, as `std::path::Path::join` gives it.
pub uninterp spec fn joined_path(base: Seq<char>, stub: Seq<char>) -> Seq<char>;

/// `path` with the extension `etag` added, as `std::path::Path::with_added_extension` gives it.
pub uninterp spec fn etag_path_of(path: Seq<char>) -> Seq<char>;

/// The parent of a path, as `std::path::Path::parent` gives it.
pub uninterp spec fn parent_of(path: Seq<char>) -> Option<Seq<char>>;

/// Calls `std::path::Path::join`. The result depends on the two paths alone, named by
/// [`joined_path`]; the joining rules are not stated here. Paths built from `&str` stay valid
/// UTF-8, so taking the result as text loses nothing.
#[verifier::external_body]
pub(crate) fn join_path(base: &str, stub: &str) -> (r: String)
    ensures
        r@ == joined_path(base@, stub@),
{
    std::path::Path::new(base).join(stub).to_string_lossy().into_owned()
}

/// Calls `std::path::Path::with_added_extension` with `"etag"`. The result depends on the path
/// alone, named by [`etag_path_of`].
#[verifier::external_body]
fn add_etag_extension(path: &str) -> (r: String)
    ensures
        r@ == etag_path_of(path@),
{
    std::path::Path::new(path).with_added_extension("etag").to_string_lossy().into_owned()
}

/// Calls `std::path::Path::parent`. The result depends on the path alone, named by
/// [`parent_of`].
#[verifier::external_body]
fn path_parent(path: &str) -> (r: Option<String>)
    ensures
        match r {
            Some(s) => parent_of(path@) == Some(s@),
            None => parent_of(path@) is None,
        },
{
    std::path::Path::new(path).parent().map(|p| p.to_string_lossy().into_owned())
}

impl CacheFolder {
    /// Get the cache path for a file: the file itself and its etag beside it.
    pub fn get_path(&self, path_stub: &str) -> (r: (String, String))
        ensures
            r.0@ == joined_path(self@.path, path_stub@),
            r.1@ == etag_path_of(joined_path(self@.path, path_stub@)),
    {
        let file_path = join_path(self.path.as_str(), path_stub);
        let etag_path = add_etag_extension(file_path.as_str());
        (file_path, etag_path)
    }
}

/// The views of borrowed folders.
pub open spec fn ref_views(s: Seq<&CacheFolder>) -> Seq<CacheFolderView> {
    s.map_values(|c: &CacheFolder| c@)
}

/// Where a patch's downloads are cached, and where else to look for them.
pub struct CacheConfig {
    /// Folder containing all patch-specific folders
    pub root: String,
    /// Cache for the targetted game version
    pub primary: CacheFolder,
    /// Folders to search when primary cache misses
    pub fallbacks_old: Vec<CacheFolder>,
    pub fallbacks_new: Vec<CacheFolder>,
}

/// Why a cache configuration could not be made.
#[derive(Debug, Clone, Copy, PartialEq, Eq, Structural)]
pub enum CacheConfigError {
    /// The primary folder is not a cache folder
    Folder(CacheError),
    /// The primary folder has no parent
    NoParent,
}

impl CacheConfig {
    /// The cache configuration for the primary cache folder at `path`, whose parent folder
    /// holds the folders at `siblings`.
    pub fn from_primary_cache_path(path: String, siblings: Vec<String>) -> (r: Result<
        CacheConfig,
        CacheConfigError,
    >)
        ensures
            match spec_from_path(path@) {
                Err(e) => r == Err::<CacheConfig, CacheConfigError>(CacheConfigError::Folder(e)),
                Ok(primary) => match parent_of(path@) {
                    None => r == Err::<CacheConfig, CacheConfigError>(CacheConfigError::NoParent),
                    Some(root) => r matches Ok(c) && c.root@ == root && c.primary@ == primary
                        && sorted_stably(
                        views(c.fallbacks_old@).reverse(),
                        candidates(siblings.deep_view(), primary.path).filter(
                            older_than(primary.parts),
                        ),
                    ) && sorted_stably(
                        views(c.fallbacks_new@),
                        candidates(siblings.deep_view(), primary.path).filter(
                            not_older_than(primary.parts),
                        ),
                    ),
                },
            },
    {
        let primary = match CacheFolder::from_path(path.clone()) {
            Ok(p) => p,
            Err(e) => {
                return Err(CacheConfigError::Folder(e));
            },
        };
        let root = match path_parent(path.as_str()) {
            Some(r) => r,
            None => {
                return Err(CacheConfigError::NoParent);
            },
        };
        let (fallbacks_old, fallbacks_new) = get_fallback_cache_dirs(siblings, &primary);
        Ok(CacheConfig { root, primary, fallbacks_old, fallbacks_new })
    }

    /// All cache folders to fall back on, in order: past (new->old) then future (old -> new)
    pub fn fallback_caches(&self) -> (r: Vec<&CacheFolder>)
        ensures
            ref_views(r@) == views(self.fallbacks_old@) + views(
                self.fallbacks_new@,
            ),
    {
        let mut out: Vec<&CacheFolder> = Vec::new();
        let mut i: usize = 0;
        while i < self.fallbacks_old.len()
            invariant
                i <= self.fallbacks_old@.len(),
                ref_views(out@) == views(self.fallbacks_old@).take(i as int),
            decreases self.fallbacks_old@.len() - i,
        {
            let ghost before = out@;
            out.push(&self.fallbacks_old[i]);
            assert(ref_views(out@) =~= ref_views(before).push(self.fallbacks_old@[i as int]@));
            i = i + 1;
            assert(ref_views(out@) =~= views(self.fallbacks_old@).take(
                i as int,
            ));
        }
        let mut j: usize = 0;
        assert(views(self.fallbacks_old@).take(i as int) =~= views(self.fallbacks_old@));
        while j < self.fallbacks_new.len()
            invariant
                j <= self.fallbacks_new@.len(),
                ref_views(out@) == views(self.fallbacks_old@) + views(
                    self.fallbacks_new@,
                ).take(j as int),
            decreases self.fallbacks_new@.len() - j,
        {
            let ghost before = out@;
            out.push(&self.fallbacks_new[j]);
            assert(ref_views(out@) =~= ref_views(before).push(self.fallbacks_new@[j as int]@));
            j = j + 1;
            assert(ref_views(out@) =~= views(self.fallbacks_old@) + views(
                self.fallbacks_new@,
            ).take(j as int));
        }
        assert(views(self.fallbacks_new@).take(j as int) =~= views(self.fallbacks_new@));
        out
    }

    /// The file and etag paths at which the fallback folders, in search order, would hold the
    /// file `path_stub`.
    pub fn fallback_paths(&self, path_stub: &str) -> (r: Vec<(String, String)>)
        ensures
            r@.len() == self.fallbacks_old@.len() + self.fallbacks_new@.len(),
            forall|i: int|
                0 <= i < r@.len() ==> {
                    let c = (views(self.fallbacks_old@) + views(self.fallbacks_new@))[i];
                    &&& (#[trigger] r@[i]).0@ == joined_path(c.path, path_stub@)
                    &&& r@[i].1@ == etag_path_of(joined_path(c.path, path_stub@))
                },
    {
        let caches = self.fallback_caches();
        let ghost all = views(self.fallbacks_old@) + views(self.fallbacks_new@);
        let mut out: Vec<(String, String)> = Vec::new();
        let mut i: usize = 0;
        assert(caches@.len() == all.len());
        while i < caches.len()
            invariant
                i <= caches@.len(),
                ref_views(caches@) == all,
                out@.len() == i,
                forall|k: int|
                    0 <= k < i ==> {
                        let c = all[k];
                        &&& (#[trigger] out@[k]).0@ == joined_path(c.path, path_stub@)
                        &&& out@[k].1@ == etag_path_of(joined_path(c.path, path_stub@))
                    },
            decreases caches@.len() - i,
        {
            assert(all[i as int] == caches@[i as int]@);
            let paths = caches[i].get_path(path_stub);
            out.push(paths);
            i = i + 1;
        }
        out
    }
}

/// Every candidate is a cache folder other than the primary one.
proof fn lemma_candidates_not_primary(siblings: Seq<Seq<char>>, primary_path: Seq<char>)
    ensures
        forall|c: CacheFolderView| #[trigger] candidates(siblings, primary_path).contains(c) ==> c.path
            != primary_path,
    decreases siblings.len(),
{
    if siblings.len() > 0 {
        lemma_candidates_not_primary(siblings.drop_last(), primary_path);
        let init = candidates(siblings.drop_last(), primary_path);
        assert forall|c: CacheFolderView| #[trigger] candidates(siblings, primary_path).contains(c)
            implies c.path != primary_path by {
            match spec_from_path(siblings.last()) {
                Ok(f) => if f.path != primary_path {
                    if c != f {
                        let k = choose|k: int| 0 <= k < init.push(f).len() && init.push(f)[k] == c;
                        assert(init.contains(c)) by {
                            assert(init[k] == c);
                        }
                    }
                },
                Err(_) => {},
            }
        }
    }
}

/// A folder of a stably sorted sequence is an item of what was sorted.
proof fn lemma_sorted_member(out: Seq<CacheFolderView>, input: Seq<CacheFolderView>, x: CacheFolderView)
    requires
        sorted_stably(out, input),
        out.contains(x),
    ensures
        input.contains(x),
{
    let k = x.parts;
    let idx = choose|i: int| 0 <= i < out.len() && out[i] == x;
    out.lemma_filter_contains(parts_are(k), idx);
    assert(with_parts(out, k) == with_parts(input, k));
    input.lemma_filter_contains_rev(parts_are(k), x);
}

/// The fallback folders are sibling cache folders other than the primary one: those searched
/// first are all of older patches, those searched last of the same patch or newer.
pub proof fn lemma_fallbacks_are_siblings(
    old: Seq<CacheFolderView>,
    new: Seq<CacheFolderView>,
    siblings: Seq<Seq<char>>,
    primary: CacheFolderView,
)
    requires
        sorted_stably(
            old.reverse(),
            candidates(siblings, primary.path).filter(older_than(primary.parts)),
        ),
        sorted_stably(new, candidates(siblings, primary.path).filter(not_older_than(primary.parts))),
    ensures
        forall|i: int|
            0 <= i < old.len() ==> {
                &&& parts_less(#[trigger] old[i].parts, primary.parts)
                &&& old[i].path != primary.path
                &&& candidates(siblings, primary.path).contains(old[i])
            },
        forall|i: int|
            0 <= i < new.len() ==> {
                &&& !parts_less(#[trigger] new[i].parts, primary.parts)
                &&& new[i].path != primary.path
                &&& candidates(siblings, primary.path).contains(new[i])
            },
{
    let cands = candidates(siblings, primary.path);
    lemma_candidates_not_primary(siblings, primary.path);
    assert forall|i: int| 0 <= i < old.len() implies {
        &&& parts_less(#[trigger] old[i].parts, primary.parts)
        &&& old[i].path != primary.path
        &&& cands.contains(old[i])
    } by {
        let x = old[i];
        let r = old.reverse();
        assert(r[old.len() - 1 - i] == x);
        lemma_sorted_member(r, cands.filter(older_than(primary.parts)), x);
        cands.lemma_filter_contains_rev(older_than(primary.parts), x);
        let f = cands.filter(older_than(primary.parts));
        let j = choose|j: int| 0 <= j < f.len() && f[j] == x;
        cands.lemma_filter_pred(older_than(primary.parts), j);
    }
    assert forall|i: int| 0 <= i < new.len() implies {
        &&& !parts_less(#[trigger] new[i].parts, primary.parts)
        &&& new[i].path != primary.path
        &&& cands.contains(new[i])
    } by {
        let x = new[i];
        lemma_sorted_member(new, cands.filter(not_older_than(primary.parts)), x);
        cands.lemma_filter_contains_rev(not_older_than(primary.parts), x);
        let f = cands.filter(not_older_than(primary.parts));
        let j = choose|j: int| 0 <= j < f.len() && f[j] == x;
        cands.lemma_filter_pred(not_older_than(primary.parts), j);
    }
}

/// The checker `present` has answered `answer` for some path whose text is `path`.
pub open spec fn answered<F: Fn(&str) -> bool>(present: F, path: Seq<char>, answer: bool) -> bool {
    exists|s: &str| s@ == path && call_ensures(present, (s,), answer)
}

impl CacheFolder {
    /// Search for the file in this cache: its path and its etag's path, where the checker
    /// `present` finds both.
    pub fn search<F: Fn(&str) -> bool>(&self, path_stub: &str, present: &F) -> (r: Option<
        (String, String),
    >)
        requires
            forall|s: &str| call_requires(*present, (s,)),
        ensures
            match r {
                Some((file, etag)) => {
                    &&& file@ == joined_path(self@.path, path_stub@)
                    &&& etag@ == etag_path_of(joined_path(self@.path, path_stub@))
                    &&& answered(*present, file@, true)
                    &&& answered(*present, etag@, true)
                },
                None => answered(*present, joined_path(self@.path, path_stub@), false) || answered(
                    *present,
                    etag_path_of(joined_path(self@.path, path_stub@)),
                    false,
                ),
            },
    {
        let (file_path, etag_path) = self.get_path(path_stub);
        let file_found = present(file_path.as_str());
        if !file_found {
            return None;
        }
        let etag_found = present(etag_path.as_str());
        if !etag_found {
            return None;
        }
        Some((file_path, etag_path))
    }
}

/// `pair` is the file and etag path at which folder `c` holds `stub`, and the checker found both.
pub open spec fn found_in<F: Fn(&str) -> bool>(
    pair: (String, String),
    c: CacheFolderView,
    stub: Seq<char>,
    present: F,
) -> bool {
    &&& pair.0@ == joined_path(c.path, stub)
    &&& pair.1@ == etag_path_of(joined_path(c.path, stub))
    &&& answered(present, pair.0@, true)
    &&& answered(present, pair.1@, true)
}

/// `pair` is the file and etag path of `stub` in one of the fallback folders `all`, found there
/// by the checker.
pub open spec fn found_in_some<F: Fn(&str) -> bool>(
    pair: (String, String),
    all: Seq<CacheFolderView>,
    stub: Seq<char>,
    present: F,
) -> bool {
    exists|i: int| 0 <= i < all.len() && #[trigger] found_in(pair, all[i], stub, present)
}

/// The checker did not find the file of `stub` in folder `c`, or did not find its etag.
pub open spec fn missing_in<F: Fn(&str) -> bool>(c: CacheFolderView, stub: Seq<char>, present: F) -> bool {
    answered(present, joined_path(c.path, stub), false) || answered(
        present,
        etag_path_of(joined_path(c.path, stub)),
        false,
    )
}

/// `r` lists, in the order of `all`, the folders of `all` at positions `idx` where the checker
/// found the file of `stub` and its etag; at every other position it missed one of them.
pub open spec fn fallbacks_searched<F: Fn(&str) -> bool>(
    r: Seq<(String, String)>,
    all: Seq<CacheFolderView>,
    stub: Seq<char>,
    present: F,
    idx: Seq<int>,
) -> bool {
    &&& idx.len() == r.len()
    &&& forall|k: int|
        0 <= k < r.len() ==> 0 <= #[trigger] idx[k] < all.len() && found_in(
            r[k],
            all[idx[k]],
            stub,
            present,
        )
    &&& forall|k1: int, k2: int| 0 <= k1 < k2 < idx.len() ==> idx[k1] < idx[k2]
    &&& forall|j: int| 0 <= j < all.len() && !idx.contains(j) ==> missing_in(all[j], stub, present)
}

impl CacheConfig {
    /// Search for the given path stub in fallback cache folders, in search order: the file and
    /// etag paths of each folder where the checker `present` finds both.
    pub fn search_fallbacks<F: Fn(&str) -> bool>(&self, path_stub: &str, present: &F) -> (r: Vec<
        (String, String),
    >)
        requires
            forall|s: &str| call_requires(*present, (s,)),
        ensures
            r@.len() <= self.fallbacks_old@.len() + self.fallbacks_new@.len(),
            forall|k: int|
                0 <= k < r@.len() ==> found_in_some(
                    #[trigger] r@[k],
                    views(self.fallbacks_old@) + views(self.fallbacks_new@),
                    path_stub@,
                    *present,
                ),
            exists|idx: Seq<int>|
                fallbacks_searched(
                    r@,
                    views(self.fallbacks_old@) + views(self.fallbacks_new@),
                    path_stub@,
                    *present,
                    idx,
                ),
    {
        let caches = self.fallback_caches();
        let ghost all = views(self.fallbacks_old@) + views(self.fallbacks_new@);
        let mut out: Vec<(String, String)> = Vec::new();
        let ghost mut idx: Seq<int> = Seq::empty();
        let mut i: usize = 0;
        while i < caches.len()
            invariant
                i <= caches@.len(),
                ref_views(caches@) == all,
                all.len() == self.fallbacks_old@.len() + self.fallbacks_new@.len(),
                forall|s: &str| call_requires(*present, (s,)),
                out@.len() <= i,
                idx.len() == out@.len(),
                forall|k: int|
                    0 <= k < out@.len() ==> 0 <= #[trigger] idx[k] < i && found_in(
                        out@[k],
                        all[idx[k]],
                        path_stub@,
                        *present,
                    ),
                forall|k1: int, k2: int| 0 <= k1 < k2 < idx.len() ==> idx[k1] < idx[k2],
                forall|j: int|
                    0 <= j < i && !idx.contains(j) ==> missing_in(all[j], path_stub@, *present),
            decreases caches@.len() - i,
        {
            assert(all[i as int] == caches@[i as int]@);
            match caches[i].search(path_stub, present) {
                Some(found) => {
                    out.push(found);
                    let ghost old_idx = idx;
                    proof {
                        idx = idx.push(i as int);
                        assert forall|j: int|
                            0 <= j < i + 1 && !idx.contains(j) implies missing_in(
                            all[j],
                            path_stub@,
                            *present,
                        ) by {
                            if j == i {
                                assert(idx[idx.len() - 1] == j);
                            } else {
                                if old_idx.contains(j) {
                                    let w = choose|w: int| 0 <= w < old_idx.len() && old_idx[w] == j;
                                    assert(idx[w] == j);
                                }
                            }
                        }
                    }
                    assert(found_in(found, all[i as int], path_stub@, *present));
                },
                None => {
                    proof {
                        assert forall|j: int|
                            0 <= j < i + 1 && !idx.contains(j) implies missing_in(
                            all[j],
                            path_stub@,
                            *present,
                        ) by {}
                    }
                },
            }
            i = i + 1;
        }
        assert(fallbacks_searched(out@, all, path_stub@, *present, idx));
        assert forall|k: int| 0 <= k < out@.len() implies found_in_some(
            #[trigger] out@[k],
            views(self.fallbacks_old@) + views(self.fallbacks_new@),
            path_stub@,
            *present,
        ) by {
            assert(found_in(out@[k], all[idx[k]], path_stub@, *present));
        }
        out
    }
}

} // verus!
