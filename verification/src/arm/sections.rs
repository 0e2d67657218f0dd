//! The parts of a room layout file that are read line by line: the version line, lists of
//! numbers, and the sections that span several lines. A section is either length-prefixed (a
//! line holding the number of items, then one line per item) or, in later versions, a run of
//! item lines closed by a line that reads `-1`. The optional tag and number lines near the end of
//! a file are taken only where the whole line matches.
use vstd::prelude::*;
use crate::text::{chars_of, str_eq};
use crate::utf16::string_from_chars;
use super::lines::{
    blank_run, char_at, lemma_positions, quoted_at, space1_at, sp_char, sp_quoted, sp_space1, sp_u32,
    sp_doodad_connection, sp_unquoted, sp_zone, u32_at, unquoted_at, zone, doodad_connection,
    parse_slot, sp_slot, LineStep, SlotModel, ZoneModel,
};
use super::types::{DoodadConnection, Slot, Zone};

verus! {

/// The text of each line.
pub open spec fn lines_view(lines: Seq<String>) -> Seq<Seq<char>> {
    lines.map_values(|l: String| l@)
}

/// What `read` gives for each line of `part`, where it accepts every one of them.
pub open spec fn read_all_lines<M>(part: Seq<Seq<char>>, read: spec_fn(Seq<char>) -> Option<M>) -> Option<Seq<M>> {
    if forall|i: int| 0 <= i < part.len() ==> (#[trigger] read(part[i])) is Some {
        Some(part.map_values(|l: Seq<char>| read(l).unwrap()))
    } else {
        None
    }
}

/// The line after a length-prefixed section that starts at line `at`: the section has the
/// number `n` that opens that line and `n` lines after it, which must all be there.
pub open spec fn section_end(ls: Seq<Seq<char>>, at: int) -> Option<int> {
    if 0 <= at < ls.len() {
        match sp_u32(ls[at], 0) {
            Some((n, _)) => if at + 1 + n <= ls.len() {
                Some(at + 1 + n)
            } else {
                None
            },
            None => None,
        }
    } else {
        None
    }
}

/// A length-prefixed section starting at line `at`, whose item lines `read` all accepts. Gives
/// the items and the line after the section.
pub open spec fn length_prefixed<M>(ls: Seq<Seq<char>>, at: int, read: spec_fn(Seq<char>) -> Option<M>) -> Option<(Seq<M>, int)> {
    match section_end(ls, at) {
        Some(end) => match read_all_lines(ls.subrange(at + 1, end), read) {
            Some(items) => Some((items, end)),
            None => None,
        },
        None => None,
    }
}

/// The line that closes a section.
pub open spec fn is_end_marker(l: Seq<char>) -> bool {
    l == seq!['-', '1']
}

/// The first closing line from line `at` on.
pub open spec fn first_marker(ls: Seq<Seq<char>>, at: int) -> Option<int>
    decreases ls.len() - at,
{
    if 0 <= at < ls.len() {
        if is_end_marker(ls[at]) {
            Some(at)
        } else {
            first_marker(ls, at + 1)
        }
    } else {
        None
    }
}

/// A section closed by `-1`, starting at line `at`: every line before the first closing line
/// is an item that `read` accepts. Gives the items and the line after the closing one.
pub open spec fn marker_terminated<M>(ls: Seq<Seq<char>>, at: int, read: spec_fn(Seq<char>) -> Option<M>) -> Option<(Seq<M>, int)> {
    match first_marker(ls, at) {
        Some(j) => match read_all_lines(ls.subrange(at, j), read) {
            Some(items) => Some((items, j + 1)),
            None => None,
        },
        None => None,
    }
}

/// A quoted string at the start of a line.
pub open spec fn quoted_line(l: Seq<char>) -> Option<Seq<char>> {
    match sp_quoted(l, 0) {
        Some((t, _)) => Some(t),
        None => None,
    }
}

/// [`quoted_line`] as a line reader.
pub open spec fn quoted_reader() -> spec_fn(Seq<char>) -> Option<Seq<char>> {
    |l: Seq<char>| quoted_line(l)
}

/// The string table of a room file: a length-prefixed section of quoted strings.
pub open spec fn sp_string_section(ls: Seq<Seq<char>>, at: int) -> Option<(Seq<Seq<char>>, int)> {
    length_prefixed(ls, at, quoted_reader())
}

proof fn lemma_first_marker_skip(ls: Seq<Seq<char>>, at: int, cur: int)
    requires
        0 <= at <= cur <= ls.len(),
        forall|k: int| at <= k < cur ==> !is_end_marker(#[trigger] ls[k]),
    ensures
        first_marker(ls, at) == first_marker(ls, cur),
    decreases cur - at,
{
    if at < cur {
        assert(!is_end_marker(ls[at]));
        lemma_first_marker_skip(ls, at + 1, cur);
    }
}

/// Reads the string table that starts at line `at`: the strings and the line after the table.
pub fn string_section(lines: &[String], at: usize) -> (r: Option<(Vec<String>, usize)>)
    ensures
        match sp_string_section(lines_view(lines@), at as int) {
            Some((items, next)) => r matches Some((v, q)) && v@.map_values(|s: String| s@) == items
                && q == next,
            None => r is None,
        },
{
    let end = match section_length(lines, at) {
        Some(end) => end,
        None => {
            return None;
        },
    };
    let start = at + 1;
    let ghost part = lines_view(lines@).subrange(start as int, end as int);
    let mut out: Vec<String> = Vec::new();
    let mut k: usize = start;
    while k < end
        invariant
            start <= k <= end <= lines.len(),
            start == at + 1,
            section_end(lines_view(lines@), at as int) == Some(end as int),
            part == lines_view(lines@).subrange(start as int, end as int),
            out@.len() == k - start,
            forall|i: int| 0 <= i < k - start ==> (#[trigger] quoted_reader()(part[i])) is Some,
            forall|i: int|
                0 <= i < k - start ==> (#[trigger] out@[i])@ == quoted_reader()(part[i]).unwrap(),
        decreases end - k,
    {
        let line = chars_of(lines[k].as_str());
        assert(line@ == part[k - start]);
        match quoted_at(line.as_slice(), 0) {
            Some((t, _)) => {
                out.push(t);
            },
            None => {
                assert(quoted_reader()(part[k - start]) is None);
                return None;
            },
        }
        k = k + 1;
    }
    assert(out@.map_values(|s: String| s@) =~= part.map_values(
        |l: Seq<char>| quoted_reader()(l).unwrap(),
    ));
    Some((out, end))
}

/// A zone line of the given version, as a line reader.
pub open spec fn zone_reader(version: u32) -> spec_fn(Seq<char>) -> Option<ZoneModel> {
    |l: Seq<char>|
        match sp_zone(l, 0, version) {
            Some((m, _)) => Some(m),
            None => None,
        }
}

/// The model of a zone that was read.
pub open spec fn zone_model(z: Zone) -> ZoneModel {
    ZoneModel {
        name: z.name@,
        bbox: seq![z.x_min, z.y_min, z.x_max, z.y_max],
        string1: z.string1.deep_view(),
        env_file: z.env_file.deep_view(),
        uint1: z.uint1,
    }
}

/// The zone section of a room file: length-prefixed before version 33, closed by `-1` from then
/// on.
pub open spec fn sp_zones(ls: Seq<Seq<char>>, at: int, version: u32) -> Option<(Seq<ZoneModel>, int)> {
    if version < 33 {
        length_prefixed(ls, at, zone_reader(version))
    } else {
        marker_terminated(ls, at, zone_reader(version))
    }
}

/// Reads the zone lines `start..end`.
fn zone_lines(lines: &[String], start: usize, end: usize, version: u32) -> (r: Option<Vec<Zone>>)
    requires
        start <= end <= lines@.len(),
    ensures
        match read_all_lines(lines_view(lines@).subrange(start as int, end as int), zone_reader(version)) {
            Some(items) => r matches Some(v) && v@.map_values(|z: Zone| zone_model(z)) == items,
            None => r is None,
        },
{
    let ghost part = lines_view(lines@).subrange(start as int, end as int);
    let mut out: Vec<Zone> = Vec::new();
    let mut k: usize = start;
    while k < end
        invariant
            start <= k <= end <= lines.len(),
            part == lines_view(lines@).subrange(start as int, end as int),
            out@.len() == k - start,
            forall|i: int| 0 <= i < k - start ==> (#[trigger] zone_reader(version)(part[i])) is Some,
            forall|i: int|
                0 <= i < k - start ==> zone_model(#[trigger] out@[i]) == zone_reader(version)(
                    part[i],
                ).unwrap(),
        decreases end - k,
    {
        assert(lines[k as int]@ == part[k - start]);
        match zone(lines[k].as_str(), version) {
            Some((z, _)) => {
                out.push(z);
                assert(zone_model(out@[k - start]) == zone_reader(version)(part[k - start]).unwrap());
            },
            None => {
                assert(zone_reader(version)(part[k - start]) is None);
                return None;
            },
        }
        k = k + 1;
    }
    assert(out@.map_values(|z: Zone| zone_model(z)) =~= part.map_values(
        |l: Seq<char>| zone_reader(version)(l).unwrap(),
    ));
    Some(out)
}

/// Reads the zone section that starts at line `at`: the zones and the line after the section.
pub fn zones(lines: &[String], at: usize, version: u32) -> (r: Option<(Vec<Zone>, usize)>)
    ensures
        match sp_zones(lines_view(lines@), at as int, version) {
            Some((items, next)) => r matches Some((v, q)) && v@.map_values(|z: Zone| zone_model(z))
                == items && q == next,
            None => r is None,
        },
{
    if version < 33 {
        match section_length(lines, at) {
            Some(end) => match zone_lines(lines, at + 1, end, version) {
                Some(v) => Some((v, end)),
                None => None,
            },
            None => None,
        }
    } else {
        match find_end_marker(lines, at) {
            Some(j) => match zone_lines(lines, at, j, version) {
                Some(v) => Some((v, j + 1)),
                None => None,
            },
            None => None,
        }
    }
}

/// The marker that opens the version line: a byte order mark and `version `.
pub open spec fn version_prefix() -> Seq<char> {
    seq!['\u{feff}', 'v', 'e', 'r', 's', 'i', 'o', 'n', ' ']
}

/// The version line: the marker, then the version number.
pub open spec fn sp_version_line(s: Seq<char>) -> Option<(u32, int)> {
    if s.len() >= 9 && s.subrange(0, 9) == version_prefix() {
        sp_u32(s, 9)
    } else {
        None
    }
}

/// Reads the version line of a room file: the version and the position after it.
pub fn version_line(line: &str) -> (r: Option<(u32, usize)>)
    ensures
        match sp_version_line(line@) {
            Some((v, q)) => r matches Some((v2, q2)) && v2 == v && q2 == q,
            None => r is None,
        },
{
    let chars = chars_of(line);
    let s = chars.as_slice();
    assert(s@ == line@);
    let prefix = ['\u{feff}', 'v', 'e', 'r', 's', 'i', 'o', 'n', ' '];
    if s.len() < 9 {
        return None;
    }
    let mut k: usize = 0;
    while k < 9
        invariant
            k <= 9 <= s@.len(),
            s@ == line@,
            prefix@ == version_prefix(),
            forall|j: int| 0 <= j < k ==> s@[j] == prefix@[j],
        decreases 9 - k,
    {
        if s[k] != prefix[k] {
            assert(s@.subrange(0, 9)[k as int] != version_prefix()[k as int]);
            return None;
        }
        k = k + 1;
    }
    assert(s@.subrange(0, 9) =~= version_prefix());
    match u32_at(s, 9) {
        Some((v, q)) => Some((v, q)),
        None => None,
    }
}

/// The numbers that follow at `p`, each after a separator: one space, or with `spaced` one or
/// more spaces or tabs. Stops before a separator that no number follows. Gives the numbers and
/// the position after the last.
pub open spec fn sp_u32s_after(s: Seq<char>, p: int, spaced: bool) -> (Seq<u32>, int)
    decreases s.len() - p,
{
    let sep = if spaced {
        sp_space1(s, p)
    } else {
        sp_char(s, p, ' ')
    };
    match sep {
        Some(q) => match sp_u32(s, q) {
            Some((v, q2)) => if p < q2 <= s.len() {
                let (rest, end) = sp_u32s_after(s, q2, spaced);
                (seq![v] + rest, end)
            } else {
                (Seq::empty(), p)
            },
            None => (Seq::empty(), p),
        },
        None => (Seq::empty(), p),
    }
}

/// One or more numbers separated by single spaces.
pub open spec fn sp_uints(s: Seq<char>) -> Option<(Seq<u32>, int)> {
    match sp_u32(s, 0) {
        Some((v, q)) => {
            let (rest, end) = sp_u32s_after(s, q, false);
            Some((seq![v] + rest, end))
        },
        None => None,
    }
}

/// Reads the numbers after `p`, as [`sp_u32s_after`] says.
fn u32s_after(s: &[char], p: usize, spaced: bool) -> (r: (Vec<u32>, usize))
    requires
        p <= s@.len(),
    ensures
        sp_u32s_after(s@, p as int, spaced) == (r.0@, r.1 as int),
        r.1 <= s@.len(),
{
    let ghost total = sp_u32s_after(s@, p as int, spaced);
    let mut out: Vec<u32> = Vec::new();
    let mut at = p;
    loop
        invariant
            at <= s@.len(),
            total == sp_u32s_after(s@, p as int, spaced),
            total == (out@ + sp_u32s_after(s@, at as int, spaced).0, sp_u32s_after(s@, at as int, spaced).1),
        decreases s@.len() - at,
    {
        proof {
            lemma_positions(s@, at as int);
        }
        let sep = if spaced {
            space1_at(s, at)
        } else {
            char_at(s, at, ' ')
        };
        let q = match sep {
            Some(q) => q,
            None => {
                assert(out@ + Seq::<u32>::empty() =~= out@);
                return (out, at);
            },
        };
        proof {
            lemma_positions(s@, q as int);
        }
        match u32_at(s, q) {
            Some((v, q2)) => {
                let ghost old_out = out@;
                out.push(v);
                assert(old_out + (seq![v] + sp_u32s_after(s@, q2 as int, spaced).0) =~= out@
                    + sp_u32s_after(s@, q2 as int, spaced).0);
                at = q2;
            },
            None => {
                assert(out@ + Seq::<u32>::empty() =~= out@);
                return (out, at);
            },
        }
    }
}

/// Reads a line of numbers separated by single spaces: the numbers and the position after the
/// last.
pub fn uints(line: &str) -> (r: Option<(Vec<u32>, usize)>)
    ensures
        match sp_uints(line@) {
            Some((vs, q)) => r matches Some((v, q2)) && v@ == vs && q2 == q,
            None => r is None,
        },
{
    let chars = chars_of(line);
    let s = chars.as_slice();
    proof {
        lemma_positions(s@, 0);
    }
    match u32_at(s, 0) {
        Some((v, q)) => {
            let (rest, end) = u32s_after(s, q, false);
            let mut out: Vec<u32> = Vec::new();
            out.push(v);
            let mut rest = rest;
            let ghost rest_view = rest@;
            out.append(&mut rest);
            assert(out@ =~= seq![v] + rest_view);
            Some((out, end))
        },
        None => None,
    }
}

/// `n` words, each after one or more spaces or tabs.
pub open spec fn sp_spaced_words(s: Seq<char>, p: int, n: nat) -> Option<(Seq<Seq<char>>, int)>
    decreases n,
{
    if n == 0 {
        Some((Seq::empty(), p))
    } else {
        match sp_space1(s, p) {
            Some(q) => match sp_unquoted(s, q) {
                Some((w, q2)) => match sp_spaced_words(s, q2, (n - 1) as nat) {
                    Some((rest, end)) => Some((seq![w] + rest, end)),
                    None => None,
                },
                None => None,
            },
            None => None,
        }
    }
}

/// A tag line: a count, then that many words, and nothing more.
pub open spec fn sp_tags_line(s: Seq<char>) -> Option<Seq<Seq<char>>> {
    match sp_u32(s, 0) {
        Some((n, q)) => match sp_spaced_words(s, q, n as nat) {
            Some((words, end)) => if end == s.len() {
                Some(words)
            } else {
                None
            },
            None => None,
        },
        None => None,
    }
}

/// The optional tag line at `at`: the tags and the line after them where the line is one, else
/// nothing and `at` itself.
pub open spec fn sp_tags(ls: Seq<Seq<char>>, at: int) -> (Option<Seq<Seq<char>>>, int) {
    if 0 <= at < ls.len() {
        match sp_tags_line(ls[at]) {
            Some(t) => (Some(t), at + 1),
            None => (None, at),
        }
    } else {
        (None, at)
    }
}

/// Reads the words of a tag line.
fn tags_line(line: &str) -> (r: Option<Vec<String>>)
    ensures
        match sp_tags_line(line@) {
            Some(t) => r matches Some(v) && v@.map_values(|w: String| w@) == t,
            None => r is None,
        },
{
    let chars = chars_of(line);
    let s = chars.as_slice();
    proof {
        lemma_positions(s@, 0);
    }
    let (n, q) = match u32_at(s, 0) {
        Some(x) => x,
        None => {
            return None;
        },
    };
    let ghost words = sp_spaced_words(s@, q as int, n as nat);
    let mut out: Vec<String> = Vec::new();
    let mut at = q;
    let mut k: u32 = 0;
    while k < n
        invariant
            k <= n,
            at <= s@.len(),
            s@ == line@,
            sp_u32(s@, 0) == Some((n, q as int)),
            words == sp_spaced_words(s@, q as int, n as nat),
            words == match sp_spaced_words(s@, at as int, (n - k) as nat) {
                Some((rest, end)) => Some((out@.map_values(|w: String| w@) + rest, end)),
                None => None,
            },
        decreases n - k,
    {
        proof {
            lemma_positions(s@, at as int);
        }
        let q1 = match space1_at(s, at) {
            Some(q1) => q1,
            None => {
                return None;
            },
        };
        proof {
            lemma_positions(s@, q1 as int);
        }
        match unquoted_at(s, q1) {
            Some((w, q2)) => {
                let ghost old_out = out@;
                out.push(w);
                assert(out@.map_values(|w: String| w@) =~= old_out.map_values(|w: String| w@)
                    + seq![w@]);
                at = q2;
            },
            None => {
                return None;
            },
        }
        k = k + 1;
    }
    assert(out@.map_values(|w: String| w@) + Seq::<Seq<char>>::empty() =~= out@.map_values(
        |w: String| w@,
    ));
    if at == s.len() {
        Some(out)
    } else {
        None
    }
}

/// Reads the optional tag line at `at`.
pub fn tags(lines: &[String], at: usize) -> (r: (Option<Vec<String>>, usize))
    ensures
        sp_tags(lines_view(lines@), at as int) matches (t, next) && r.1 == next && match t {
            Some(words) => r.0 matches Some(v) && v@.map_values(|w: String| w@) == words,
            None => r.0 is None,
        },
{
    if at >= lines.len() {
        return (None, at);
    }
    assert(lines[at as int]@ == lines_view(lines@)[at as int]);
    match tags_line(lines[at].as_str()) {
        Some(t) => (Some(t), at + 1),
        None => (None, at),
    }
}

/// A closing line of numbers: numbers separated by spaces or tabs, perhaps followed by spaces or
/// tabs, and nothing more.
pub open spec fn sp_trailing_line(s: Seq<char>) -> Option<Seq<u32>> {
    match sp_u32(s, 0) {
        Some((v, q)) => {
            let (rest, end) = sp_u32s_after(s, q, true);
            if end + blank_run(s, end) == s.len() {
                Some(seq![v] + rest)
            } else {
                None
            }
        },
        None => None,
    }
}

/// The optional closing line of numbers at `at`: the numbers and the line after them where the
/// line is one, else nothing and `at` itself.
pub open spec fn sp_trailing(ls: Seq<Seq<char>>, at: int) -> (Option<Seq<u32>>, int) {
    if 0 <= at < ls.len() {
        match sp_trailing_line(ls[at]) {
            Some(t) => (Some(t), at + 1),
            None => (None, at),
        }
    } else {
        (None, at)
    }
}

/// Reads the optional closing line of numbers at `at`.
pub fn trailing(lines: &[String], at: usize) -> (r: (Option<Vec<u32>>, usize))
    ensures
        sp_trailing(lines_view(lines@), at as int) matches (t, next) && r.1 == next && match t {
            Some(nums) => r.0 matches Some(v) && v@ == nums,
            None => r.0 is None,
        },
{
    if at >= lines.len() {
        return (None, at);
    }
    assert(lines[at as int]@ == lines_view(lines@)[at as int]);
    let chars = chars_of(lines[at].as_str());
    let s = chars.as_slice();
    proof {
        lemma_positions(s@, 0);
    }
    let (v, q) = match u32_at(s, 0) {
        Some(x) => x,
        None => {
            return (None, at);
        },
    };
    let (rest, end) = u32s_after(s, q, true);
    let last = match space1_at(s, end) {
        Some(e) => e,
        None => end,
    };
    if last != s.len() {
        return (None, at);
    }
    let mut out: Vec<u32> = Vec::new();
    out.push(v);
    let mut rest = rest;
    let ghost rest_view = rest@;
    out.append(&mut rest);
    assert(out@ =~= seq![v] + rest_view);
    (Some(out), at + 1)
}

/// A doodad connection line, as a line reader.
pub open spec fn connection_reader() -> spec_fn(Seq<char>) -> Option<(u32, u32, Seq<char>)> {
    |l: Seq<char>|
        match sp_doodad_connection(l, 0) {
            Some((from, to, tag, _)) => Some((from, to, tag)),
            None => None,
        }
}

/// The model of a doodad connection that was read.
pub open spec fn connection_model(c: DoodadConnection) -> (u32, u32, Seq<char>) {
    (c.from, c.to, c.tag@)
}

/// The doodad connections of a room file: length-prefixed before version 32, closed by `-1` from
/// then on.
pub open spec fn sp_doodad_connections(ls: Seq<Seq<char>>, at: int, version: u32) -> Option<(Seq<(u32, u32, Seq<char>)>, int)> {
    if version < 32 {
        length_prefixed(ls, at, connection_reader())
    } else {
        marker_terminated(ls, at, connection_reader())
    }
}

/// Reads the doodad connection lines `start..end`.
fn connection_lines(lines: &[String], start: usize, end: usize) -> (r: Option<Vec<DoodadConnection>>)
    requires
        start <= end <= lines@.len(),
    ensures
        match read_all_lines(lines_view(lines@).subrange(start as int, end as int), connection_reader()) {
            Some(items) => r matches Some(v) && v@.map_values(|c: DoodadConnection| connection_model(c)) == items,
            None => r is None,
        },
{
    let ghost part = lines_view(lines@).subrange(start as int, end as int);
    let mut out: Vec<DoodadConnection> = Vec::new();
    let mut k: usize = start;
    while k < end
        invariant
            start <= k <= end <= lines.len(),
            part == lines_view(lines@).subrange(start as int, end as int),
            out@.len() == k - start,
            forall|i: int| 0 <= i < k - start ==> (#[trigger] connection_reader()(part[i])) is Some,
            forall|i: int|
                0 <= i < k - start ==> connection_model(#[trigger] out@[i]) == connection_reader()(
                    part[i],
                ).unwrap(),
        decreases end - k,
    {
        assert(lines[k as int]@ == part[k - start]);
        match doodad_connection(lines[k].as_str()) {
            Some((c, _)) => {
                out.push(c);
                assert(connection_model(out@[k - start]) == connection_reader()(
                    part[k - start],
                ).unwrap());
            },
            None => {
                assert(connection_reader()(part[k - start]) is None);
                return None;
            },
        }
        k = k + 1;
    }
    assert(out@.map_values(|c: DoodadConnection| connection_model(c)) =~= part.map_values(
        |l: Seq<char>| connection_reader()(l).unwrap(),
    ));
    Some(out)
}

/// The line of the first `-1` at or after `at`, if there is one.
pub(crate) fn find_end_marker(lines: &[String], at: usize) -> (r: Option<usize>)
    ensures
        match first_marker(lines_view(lines@), at as int) {
            Some(j) => r matches Some(k) && k == j,
            None => r is None,
        },
        r matches Some(j) ==> at <= j < lines.len(),
{
    let ghost ls = lines_view(lines@);
    let marker = "-1";
    proof {
        reveal_strlit("-1");
    }
    let mut k: usize = at;
    while k < lines.len() && !str_eq(lines[k].as_str(), marker)
        invariant
            at <= k,
            ls == lines_view(lines@),
            marker@ == seq!['-', '1'],
            at < lines.len() ==> k <= lines.len(),
            forall|j: int| at <= j < k ==> !is_end_marker(#[trigger] ls[j]),
        decreases lines.len() - k,
    {
        k = k + 1;
    }
    if k >= lines.len() {
        proof {
            if at < lines.len() {
                lemma_first_marker_skip(ls, at as int, k as int);
            }
        }
        return None;
    }
    proof {
        lemma_first_marker_skip(ls, at as int, k as int);
        assert(is_end_marker(ls[k as int]));
    }
    Some(k)
}

/// Finds the line after the length-prefixed section that starts at line `at`.
pub(crate) fn section_length(lines: &[String], at: usize) -> (r: Option<usize>)
    ensures
        match section_end(lines_view(lines@), at as int) {
            Some(end) => r matches Some(e) && e == end,
            None => r is None,
        },
        r matches Some(end) ==> at < end <= lines@.len(),
{
    if at >= lines.len() {
        return None;
    }
    let first = chars_of(lines[at].as_str());
    assert(first@ == lines_view(lines@)[at as int]);
    let n = match u32_at(first.as_slice(), 0) {
        Some((n, _)) => n,
        None => {
            return None;
        },
    };
    if n as usize > lines.len() - at - 1 {
        return None;
    }
    Some(at + 1 + n as usize)
}

/// Reads the doodad connections that start at line `at`: the connections and the line after
/// them.
pub fn doodad_connections(lines: &[String], at: usize, version: u32) -> (r: Option<(Vec<DoodadConnection>, usize)>)
    ensures
        match sp_doodad_connections(lines_view(lines@), at as int, version) {
            Some((items, next)) => r matches Some((v, q)) && v@.map_values(
                |c: DoodadConnection| connection_model(c),
            ) == items && q == next,
            None => r is None,
        },
{
    if version < 32 {
        match section_length(lines, at) {
            Some(end) => match connection_lines(lines, at + 1, end) {
                Some(v) => Some((v, end)),
                None => None,
            },
            None => None,
        }
    } else {
        match find_end_marker(lines, at) {
            Some(j) => match connection_lines(lines, at, j) {
                Some(v) => Some((v, j + 1)),
                None => None,
            },
            None => None,
        }
    }
}

/// The slots of a grid row after the one that ends at `p`: each after one space. Reading stops
/// before a space that no slot follows.
pub open spec fn sp_slot_row_tail(s: Seq<char>, p: int, strings: Seq<Seq<char>>) -> LineStep<Seq<SlotModel>>
    decreases s.len() - p,
{
    match sp_char(s, p, ' ') {
        Some(q) => match sp_slot(s, q, strings) {
            LineStep::Done(m, q2) => if p < q2 <= s.len() {
                match sp_slot_row_tail(s, q2, strings) {
                    LineStep::Done(rest, end) => LineStep::Done(seq![m] + rest, end),
                    LineStep::Fail => LineStep::Fail,
                    LineStep::Abort => LineStep::Abort,
                }
            } else {
                LineStep::Done(Seq::empty(), p)
            },
            LineStep::Fail => LineStep::Done(Seq::empty(), p),
            LineStep::Abort => LineStep::Abort,
        },
        None => LineStep::Done(Seq::empty(), p),
    }
}

/// A grid row: one or more slots separated by single spaces.
pub open spec fn sp_slot_row(s: Seq<char>, strings: Seq<Seq<char>>) -> LineStep<Seq<SlotModel>> {
    match sp_slot(s, 0, strings) {
        LineStep::Done(m, q) => match sp_slot_row_tail(s, q, strings) {
            LineStep::Done(rest, end) => LineStep::Done(seq![m] + rest, end),
            LineStep::Fail => LineStep::Fail,
            LineStep::Abort => LineStep::Abort,
        },
        LineStep::Fail => LineStep::Fail,
        LineStep::Abort => LineStep::Abort,
    }
}

/// A grid of `height` rows, one per line from line `at`: the rows and the line after them.
pub open spec fn sp_grid(ls: Seq<Seq<char>>, at: int, height: nat, strings: Seq<Seq<char>>) -> LineStep<Seq<Seq<SlotModel>>>
    decreases height,
{
    if height == 0 {
        LineStep::Done(Seq::empty(), at)
    } else if 0 <= at < ls.len() {
        match sp_slot_row(ls[at], strings) {
            LineStep::Done(row, _) => match sp_grid(ls, at + 1, (height - 1) as nat, strings) {
                LineStep::Done(rest, end) => LineStep::Done(seq![row] + rest, end),
                LineStep::Fail => LineStep::Fail,
                LineStep::Abort => LineStep::Abort,
            },
            LineStep::Fail => LineStep::Fail,
            LineStep::Abort => LineStep::Abort,
        }
    } else {
        LineStep::Fail
    }
}

/// The models of some slots.
pub open spec fn slots_view(v: Seq<Slot>) -> Seq<SlotModel> {
    v.map_values(|x: Slot| x@)
}

/// `prefix` put before what reading the rest of a row gives.
pub open spec fn row_after<T>(prefix: Seq<T>, step: LineStep<Seq<T>>) -> LineStep<Seq<T>> {
    match step {
        LineStep::Done(rest, end) => LineStep::Done(prefix + rest, end),
        LineStep::Fail => LineStep::Fail,
        LineStep::Abort => LineStep::Abort,
    }
}

/// Reads a grid row.
pub fn slot_row(line: &str, strings: &[String]) -> (r: Option<(Vec<Slot>, usize)>)
    requires
        !(sp_slot_row(line@, strings.deep_view()) is Abort),
    ensures
        match sp_slot_row(line@, strings.deep_view()) {
            LineStep::Done(ms, q) => r matches Some((v, q2)) && slots_view(v@) == ms && q2 == q,
            _ => r is None,
        },
{
    let ghost st = strings.deep_view();
    let chars = chars_of(line);
    let s = chars.as_slice();
    assert(s@ == line@);
    let (first, q0) = match parse_slot(s, 0, strings) {
        Some(x) => x,
        None => {
            return None;
        },
    };
    let ghost total = sp_slot_row(s@, st);
    let mut out: Vec<Slot> = Vec::new();
    out.push(first);
    let mut at = q0;
    assert(slots_view(out@) =~= seq![first@]);
    loop
        invariant
            s@ == line@,
            st == strings.deep_view(),
            total == sp_slot_row(s@, st),
            !(total is Abort),
            q0 <= at,
            total == row_after(slots_view(out@), sp_slot_row_tail(s@, at as int, st)),
        decreases s@.len() - at,
    {
        if at > s.len() {
            assert(sp_char(s@, at as int, ' ') is None);
            assert(slots_view(out@) + Seq::<SlotModel>::empty() =~= slots_view(out@));
            return Some((out, at));
        }
        let q = match char_at(s, at, ' ') {
            Some(q) => q,
            None => {
                assert(slots_view(out@) + Seq::<SlotModel>::empty() =~= slots_view(out@));
                return Some((out, at));
            },
        };
        match parse_slot(s, q, strings) {
            Some((slot, q2)) => {
                if !(at < q2 && q2 <= s.len()) {
                    assert(slots_view(out@) + Seq::<SlotModel>::empty() =~= slots_view(out@));
                    return Some((out, at));
                }
                let ghost old = slots_view(out@);
                out.push(slot);
                proof {
                    let rest = sp_slot_row_tail(s@, q2 as int, st);
                    assert(slots_view(out@) =~= old + seq![slot@]);
                    if let LineStep::Done(r2, e) = rest {
                        assert(old + (seq![slot@] + r2) =~= slots_view(out@) + r2);
                    }
                }
                at = q2;
            },
            None => {
                assert(slots_view(out@) + Seq::<SlotModel>::empty() =~= slots_view(out@));
                return Some((out, at));
            },
        }
    }
}

/// Reads a grid of `height` rows from line `at`: the rows and the line after them.
#[verifier::spinoff_prover]
#[verifier::rlimit(30)]
pub fn grid(lines: &[String], at: usize, height: usize, strings: &[String]) -> (r: Option<(Vec<Vec<Slot>>, usize)>)
    requires
        !(sp_grid(lines_view(lines@), at as int, height as nat, strings.deep_view()) is Abort),
    ensures
        match sp_grid(lines_view(lines@), at as int, height as nat, strings.deep_view()) {
            LineStep::Done(rows, q) => r matches Some((v, q2)) && v@.map_values(
                |row: Vec<Slot>| slots_view(row@),
            ) == rows && q2 == q,
            _ => r is None,
        },
{
    let ghost ls = lines_view(lines@);
    let ghost st = strings.deep_view();
    let ghost total = sp_grid(ls, at as int, height as nat, st);
    let ghost mut models: Seq<Seq<SlotModel>> = Seq::empty();
    let mut out: Vec<Vec<Slot>> = Vec::new();
    let mut line = at;
    let mut k: usize = 0;
    while k < height
        invariant
            k <= height,
            line == at + k,
            k == 0 || line <= lines@.len(),
            ls == lines_view(lines@),
            st == strings.deep_view(),
            total == sp_grid(ls, at as int, height as nat, st),
            !(total is Abort),
            out@.len() == k,
            models.len() == k,
            forall|i: int| 0 <= i < k ==> slots_view((#[trigger] out@[i])@) == models[i],
            total == row_after(models, sp_grid(ls, line as int, (height - k) as nat, st)),
        decreases height - k,
    {
        if line >= lines.len() {
            return None;
        }
        assert(lines[line as int]@ == ls[line as int]);
        match slot_row(lines[line].as_str(), strings) {
            Some((row, _)) => {
                let ghost rv = slots_view(row@);
                proof {
                    let rest = sp_grid(ls, line + 1, (height - k - 1) as nat, st);
                    if let LineStep::Done(r2, e) = rest {
                        assert(models + (seq![rv] + r2) =~= models.push(rv) + r2);
                    }
                    models = models.push(rv);
                }
                out.push(row);
            },
            None => {
                return None;
            },
        }
        k = k + 1;
        line = line + 1;
    }
    assert(out@.map_values(|row: Vec<Slot>| slots_view(row@)) =~= models);
    assert(models + Seq::<Seq<SlotModel>>::empty() =~= models);
    Some((out, line))
}

/// The quoted names that follow at `p`, each after one or more spaces or tabs. Stops before
/// blanks that no quoted name follows. Gives the names and the position after the last.
pub open spec fn sp_quoted_after(s: Seq<char>, p: int) -> (Seq<Seq<char>>, int)
    decreases s.len() - p,
{
    match sp_space1(s, p) {
        Some(q) => match sp_quoted(s, q) {
            Some((name, q2)) => if p < q2 <= s.len() {
                let (rest, end) = sp_quoted_after(s, q2);
                (seq![name] + rest, end)
            } else {
                (Seq::empty(), p)
            },
            None => (Seq::empty(), p),
        },
        None => (Seq::empty(), p),
    }
}

/// A boss line: one or more quoted names separated by blanks, then blanks, then whatever text
/// is left on the line (which belongs to the next line where the file lost a line break).
pub open spec fn sp_boss_line(s: Seq<char>) -> Option<(Seq<Seq<char>>, Seq<char>)> {
    match sp_quoted(s, 0) {
        Some((first, p)) => {
            let (rest, end) = sp_quoted_after(s, p);
            match sp_space1(s, end) {
                Some(q) => Some((seq![first] + rest, s.subrange(q, s.len() as int))),
                None => None,
            }
        },
        None => None,
    }
}

/// [`sp_boss_line`] as a line reader.
pub open spec fn boss_reader() -> spec_fn(Seq<char>) -> Option<(Seq<Seq<char>>, Seq<char>)> {
    |l: Seq<char>| sp_boss_line(l)
}

/// Whether the boss section at line `at` reads, with no text left over on any line but the last
/// (left-over text on an earlier line panics).
pub open spec fn boss_lines_ok(ls: Seq<Seq<char>>, at: int) -> bool {
    length_prefixed(ls, at, boss_reader()) matches Some((items, _)) ==> forall|i: int|
        0 <= i < items.len() - 1 ==> (#[trigger] items[i]).1.len() == 0
}

/// Reads the quoted names after `p`, as [`sp_quoted_after`] says.
fn quoted_after(s: &[char], p: usize) -> (r: (Vec<String>, usize))
    requires
        p <= s@.len(),
    ensures
        sp_quoted_after(s@, p as int) == (r.0@.map_values(|n: String| n@), r.1 as int),
        r.1 <= s@.len(),
{
    let ghost total = sp_quoted_after(s@, p as int);
    let mut out: Vec<String> = Vec::new();
    let mut at = p;
    loop
        invariant
            at <= s@.len(),
            total == sp_quoted_after(s@, p as int),
            total == (out@.map_values(|n: String| n@) + sp_quoted_after(s@, at as int).0,
                sp_quoted_after(s@, at as int).1),
        decreases s@.len() - at,
    {
        proof {
            lemma_positions(s@, at as int);
        }
        let q = match space1_at(s, at) {
            Some(q) => q,
            None => {
                assert(out@.map_values(|n: String| n@) + Seq::<Seq<char>>::empty() =~= out@.map_values(
                    |n: String| n@,
                ));
                return (out, at);
            },
        };
        proof {
            lemma_positions(s@, q as int);
        }
        match quoted_at(s, q) {
            Some((name, q2)) => {
                let ghost old = out@.map_values(|n: String| n@);
                let ghost nv = name@;
                out.push(name);
                assert(out@.map_values(|n: String| n@) =~= old.push(nv));
                assert(old + (seq![nv] + sp_quoted_after(s@, q2 as int).0) =~= old.push(nv)
                    + sp_quoted_after(s@, q2 as int).0);
                at = q2;
            },
            None => {
                assert(out@.map_values(|n: String| n@) + Seq::<Seq<char>>::empty() =~= out@.map_values(
                    |n: String| n@,
                ));
                return (out, at);
            },
        }
    }
}

/// Reads a boss line: its names and the text left after them.
fn boss_line(line: &str) -> (r: Option<(Vec<String>, String)>)
    ensures
        match sp_boss_line(line@) {
            Some((names, left)) => r matches Some((v, t)) && v@.map_values(|n: String| n@) == names
                && t@ == left,
            None => r is None,
        },
{
    let chars = chars_of(line);
    let s = chars.as_slice();
    assert(s@ == line@);
    proof {
        lemma_positions(s@, 0);
    }
    let (first, p) = match quoted_at(s, 0) {
        Some(x) => x,
        None => {
            return None;
        },
    };
    let (rest, end) = quoted_after(s, p);
    let q = match space1_at(s, end) {
        Some(q) => q,
        None => {
            return None;
        },
    };
    proof {
        lemma_positions(s@, end as int);
    }
    let left = string_from_chars(&s[q..s.len()]);
    let mut names: Vec<String> = Vec::new();
    let ghost fv = first@;
    names.push(first);
    let mut rest = rest;
    let ghost rv = rest@.map_values(|n: String| n@);
    names.append(&mut rest);
    assert(names@.map_values(|n: String| n@) =~= seq![fv] + rv);
    Some((names, left))
}

/// Reads the boss section that starts at line `at`: the names on each boss line, the text left
/// after the names on the last line where there is some (it stands for a line of its own that
/// follows), and the line after the section.
pub fn boss_lines(lines: &[String], at: usize) -> (r: Option<(Vec<Vec<String>>, Option<String>, usize)>)
    requires
        boss_lines_ok(lines_view(lines@), at as int),
    ensures
        match length_prefixed(lines_view(lines@), at as int, boss_reader()) {
            Some((items, next)) => r matches Some((v, carried, q)) && v@.map_values(
                |names: Vec<String>| names@.map_values(|n: String| n@),
            ) == items.map_values(|it: (Seq<Seq<char>>, Seq<char>)| it.0) && q == next && match carried {
                Some(t) => items.len() > 0 && t@ == items.last().1 && t@.len() > 0,
                None => items.len() == 0 || items.last().1.len() == 0,
            },
            None => r is None,
        },
{
    let ghost ls = lines_view(lines@);
    let end = match section_length(lines, at) {
        Some(end) => end,
        None => {
            return None;
        },
    };
    let start = at + 1;
    let ghost part = ls.subrange(start as int, end as int);
    let ghost mut models: Seq<(Seq<Seq<char>>, Seq<char>)> = Seq::empty();
    let mut out: Vec<Vec<String>> = Vec::new();
    let mut last_left: Option<String> = None;
    let mut k: usize = start;
    while k < end
        invariant
            start <= k <= end <= lines.len(),
            start == at + 1,
            ls == lines_view(lines@),
            section_end(ls, at as int) == Some(end as int),
            part == ls.subrange(start as int, end as int),
            boss_lines_ok(ls, at as int),
            models.len() == k - start,
            out@.len() == k - start,
            forall|i: int| 0 <= i < k - start ==> (#[trigger] boss_reader()(part[i])) == Some(models[i]),
            forall|i: int|
                0 <= i < k - start ==> (#[trigger] out@[i])@.map_values(|n: String| n@)
                    == models[i].0,
            match last_left {
                Some(t) => models.len() > 0 && t@ == models.last().1 && t@.len() > 0,
                None => models.len() == 0 || models.last().1.len() == 0,
            },
        decreases end - k,
    {
        assert(lines[k as int]@ == part[k - start]);
        match boss_line(lines[k].as_str()) {
            Some((names, left)) => {
                let ghost m = (names@.map_values(|n: String| n@), left@);
                proof {
                    models = models.push(m);
                }
                out.push(names);
                if left.as_str().unicode_len() == 0 {
                    last_left = None;
                } else {
                    last_left = Some(left);
                }
            },
            None => {
                assert(boss_reader()(part[k - start]) is None);
                return None;
            },
        }
        k = k + 1;
    }
    assert(read_all_lines(part, boss_reader()) == Some(models)) by {
        assert(part.map_values(|l: Seq<char>| boss_reader()(l).unwrap()) =~= models);
    }
    assert(out@.map_values(|names: Vec<String>| names@.map_values(|n: String| n@)) =~= models.map_values(
        |it: (Seq<Seq<char>>, Seq<char>)| it.0,
    ));
    Some((out, last_left, end))
}

} // verus!
