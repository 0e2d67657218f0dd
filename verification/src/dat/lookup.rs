//! Finding the schema of a data table file.
use vstd::prelude::*;
use crate::text::str_eq;
use super::schema::{DatTableSchema, SchemaCollection};

verus! {

/// `s` in lower case, as `str::to_lowercase` gives it (Unicode's lower-case mappings).
pub uninterp spec fn lowercase(s: Seq<char>) -> Seq<char>;

/// The file name of a path without its extension, as `std::path::Path::file_stem` gives it.
pub uninterp spec fn file_stem_of(path: Seq<char>) -> Option<Seq<char>>;

/// Whether every character of the text is ASCII.
pub open spec fn is_ascii_text(s: Seq<char>) -> bool {
    forall|i: int| 0 <= i < s.len() ==> (#[trigger] s[i] as u32) < 128
}

/// An ASCII character in lower case: 'A' to 'Z' become 'a' to 'z', the others stay.
pub open spec fn ascii_lower_char(c: char) -> char {
    if 65 <= (c as u32) <= 90 {
        ((c as u32) + 32) as char
    } else {
        c
    }
}

/// ASCII text in lower case, one character at a time.
pub open spec fn ascii_lower(s: Seq<char>) -> Seq<char> {
    s.map_values(|c: char| ascii_lower_char(c))
}

/// Calls `str::to_lowercase`. The result depends on the text alone, named by [`lowercase`]; of
/// the case mappings only the ASCII ones are stated: ASCII text comes back with 'A' to 'Z' made
/// 'a' to 'z' and every other character kept. What other characters map to is not stated here.
#[verifier::external_body]
pub(crate) fn to_lowercase(s: &str) -> (r: String)
    ensures
        r@ == lowercase(s@),
        is_ascii_text(s@) ==> r@ == ascii_lower(s@),
{
    s.to_lowercase()
}

/// Calls `std::path::Path::file_stem` and takes the stem as text (a path made from a `&str`
/// stays valid UTF-8). The result depends on the path alone, named by [`file_stem_of`].
#[verifier::external_body]
fn path_file_stem(path: &str) -> (r: Option<String>)
    ensures
        match r {
            Some(s) => file_stem_of(path@) == Some(s@),
            None => file_stem_of(path@) is None,
        },
{
    std::path::Path::new(path).file_stem().and_then(|s| s.to_str()).map(|s| s.to_string())
}

/// Whether a table schema applies to game version `version` (3 marks tables common to both
/// games) and is named `stem`, ignoring case.
pub open spec fn schema_matches(t: DatTableSchema, stem: Seq<char>, version: u32) -> bool {
    (t.valid_for == version || t.valid_for == 3) && lowercase(t.name@) == stem
}

/// The first schema that applies to `version` and whose lower-cased name is `stem`.
pub fn find_table_schema<'a>(schemas: &'a SchemaCollection, stem: &str, version: u32) -> (r: Option<
    &'a DatTableSchema,
>)
    ensures
        match r {
            Some(t) => exists|i: int|
                0 <= i < schemas.tables@.len() && schemas.tables@[i] == *t && schema_matches(
                    *t,
                    stem@,
                    version,
                ) && forall|j: int|
                    0 <= j < i ==> !schema_matches(#[trigger] schemas.tables@[j], stem@, version),
            None => forall|j: int|
                0 <= j < schemas.tables@.len() ==> !schema_matches(
                    #[trigger] schemas.tables@[j],
                    stem@,
                    version,
                ),
        },
{
    let mut i: usize = 0;
    while i < schemas.tables.len()
        invariant
            i <= schemas.tables@.len(),
            forall|j: int|
                0 <= j < i ==> !schema_matches(#[trigger] schemas.tables@[j], stem@, version),
        decreases schemas.tables@.len() - i,
    {
        let t = &schemas.tables[i];
        if t.valid_for == version || t.valid_for == 3 {
            let name = to_lowercase(t.name.as_str());
            if str_eq(name.as_str(), stem) {
                assert(schema_matches(schemas.tables@[i as int], stem@, version));
                return Some(t);
            }
        }
        i = i + 1;
    }
    None
}

/// The schema of the table in file `filename`: `None` where the path has no file stem, else the
/// lookup of its stem.
pub fn schema_for_file<'a>(schemas: &'a SchemaCollection, filename: &str, version: u32) -> (r: Option<
    Option<&'a DatTableSchema>,
>)
    ensures
        match file_stem_of(filename@) {
            None => r is None,
            Some(stem) => r matches Some(found) && match found {
                Some(t) => exists|i: int|
                    0 <= i < schemas.tables@.len() && schemas.tables@[i] == *t && schema_matches(
                        *t,
                        stem,
                        version,
                    ) && forall|j: int|
                        0 <= j < i ==> !schema_matches(
                            #[trigger] schemas.tables@[j],
                            stem,
                            version,
                        ),
                None => forall|j: int|
                    0 <= j < schemas.tables@.len() ==> !schema_matches(
                        #[trigger] schemas.tables@[j],
                        stem,
                        version,
                    ),
            },
        },
{
    match path_file_stem(filename) {
        Some(stem) => Some(find_table_schema(schemas, stem.as_str(), version)),
        None => None,
    }
}

} // verus!
