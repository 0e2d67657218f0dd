//! A whole room layout file, read line by line: the version, the string table, the room's
//! dimensions and numbers, its root slot and grid, the sections of points of interest, doodads,
//! doodad connections and decals, the boss lines, the zones, and the optional tag and number
//! lines at the end. Points of interest, doodads and decals hold floating-point fields, so their
//! lines are kept as text.
use vstd::prelude::*;
use crate::text::chars_of;
use crate::utf16::string_from_chars;
use super::lines::{
    bool_at, dimensions, lemma_positions, quoted_at, root_slot, space1_at, sp_bool, sp_dimensions,
    sp_quoted, sp_slot, sp_space1, sp_thingy, thingy, LineStep, SlotModel, ThingyModel, ZoneModel,
};
use super::sections::{
    boss_lines, boss_lines_ok, boss_reader, connection_model, doodad_connections, find_end_marker,
    grid, length_prefixed, lines_view, marker_terminated, read_all_lines, row_after,
    section_length, slots_view, sp_doodad_connections, sp_grid, sp_string_section, sp_tags,
    sp_trailing, sp_uints, sp_version_line, sp_zones, string_section, tags, trailing, uints,
    version_line, zone_model, zones,
};
use super::types::{Dimension, DoodadConnection, Slot, Thingy, Zone};

verus! {

/// A line as it stands.
pub open spec fn text_reader() -> spec_fn(Seq<char>) -> Option<Seq<char>> {
    |l: Seq<char>| Some(l)
}

/// A group of item lines starting at line `at`: length-prefixed before version 32, closed by a
/// `-1` line from version 32.
pub open spec fn sp_text_group(ls: Seq<Seq<char>>, at: int, version: u32) -> Option<(Seq<Seq<char>>, int)> {
    if version < 32 {
        length_prefixed(ls, at, text_reader())
    } else {
        marker_terminated(ls, at, text_reader())
    }
}

/// Every line is read as it stands.
proof fn lemma_text_lines(part: Seq<Seq<char>>)
    ensures
        read_all_lines(part, text_reader()) == Some(part),
{
    assert(forall|i: int| 0 <= i < part.len() ==> (#[trigger] text_reader()(part[i])) is Some);
    assert(part.map_values(|l: Seq<char>| text_reader()(l).unwrap()) =~= part);
}

/// Copies the lines `start..end`.
fn copy_lines(lines: &[String], start: usize, end: usize) -> (r: Vec<String>)
    requires
        start <= end <= lines@.len(),
    ensures
        lines_view(r@) == lines_view(lines@).subrange(start as int, end as int),
{
    let mut out: Vec<String> = Vec::new();
    let mut k = start;
    while k < end
        invariant
            start <= k <= end <= lines@.len(),
            lines_view(out@) == lines_view(lines@).subrange(start as int, k as int),
        decreases end - k,
    {
        let ghost before = lines_view(out@);
        let c = lines[k].clone();
        assert(c@ == lines_view(lines@)[k as int]);
        out.push(c);
        assert(lines_view(out@) =~= before.push(c@));
        assert(lines_view(lines@).subrange(start as int, k + 1) =~= lines_view(lines@).subrange(
            start as int,
            k as int,
        ).push(c@));
        k = k + 1;
    }
    out
}

/// Reads a group of item lines starting at line `at`, keeping each line as text: the lines and
/// the line after the group.
pub fn text_group(lines: &[String], at: usize, version: u32) -> (r: Option<(Vec<String>, usize)>)
    ensures
        match sp_text_group(lines_view(lines@), at as int, version) {
            Some((items, next)) => r matches Some((v, q)) && lines_view(v@) == items && q == next,
            None => r is None,
        },
        r matches Some((_, q)) ==> q <= lines@.len(),
{
    let ghost ls = lines_view(lines@);
    if version < 32 {
        match section_length(lines, at) {
            Some(end) => {
                proof {
                    lemma_text_lines(ls.subrange(at + 1, end as int));
                }
                Some((copy_lines(lines, at + 1, end), end))
            },
            None => None,
        }
    } else {
        match find_end_marker(lines, at) {
            Some(j) => {
                proof {
                    lemma_text_lines(ls.subrange(at as int, j as int));
                }
                Some((copy_lines(lines, at, j), j + 1))
            },
            None => None,
        }
    }
}

/// How many groups of points of interest a file of the given version has.
pub open spec fn poi_group_count(version: u32) -> nat {
    if version < 20 {
        9
    } else if version < 26 {
        10
    } else if version < 29 {
        5
    } else {
        6
    }
}

/// `n` groups of item lines one after the other from line `at`.
pub open spec fn sp_text_groups(ls: Seq<Seq<char>>, at: int, version: u32, n: nat) -> Option<
    (Seq<Seq<Seq<char>>>, int),
>
    decreases n,
{
    if n == 0 {
        Some((Seq::empty(), at))
    } else {
        match sp_text_group(ls, at, version) {
            Some((g, q)) => match sp_text_groups(ls, q, version, (n - 1) as nat) {
                Some((rest, end)) => Some((seq![g] + rest, end)),
                None => None,
            },
            None => None,
        }
    }
}

/// `prefix` put before what reading the rest of the groups gives.
pub open spec fn groups_after(
    prefix: Seq<Seq<Seq<char>>>,
    step: Option<(Seq<Seq<Seq<char>>>, int)>,
) -> Option<(Seq<Seq<Seq<char>>>, int)> {
    match step {
        Some((rest, end)) => Some((prefix + rest, end)),
        None => None,
    }
}

/// Reads the groups of points of interest from line `at`, each point's line kept as text: the
/// groups and the line after them.
pub fn poi_groups(lines: &[String], at: usize, version: u32) -> (r: Option<(Vec<Vec<String>>, usize)>)
    ensures
        match sp_text_groups(lines_view(lines@), at as int, version, poi_group_count(version)) {
            Some((groups, next)) => r matches Some((v, q)) && v@.map_values(
                |g: Vec<String>| lines_view(g@),
            ) == groups && q == next,
            None => r is None,
        },
{
    let ghost ls = lines_view(lines@);
    let n: usize = if version < 20 {
        9
    } else if version < 26 {
        10
    } else if version < 29 {
        5
    } else {
        6
    };
    let ghost total = sp_text_groups(ls, at as int, version, n as nat);
    let ghost mut models: Seq<Seq<Seq<char>>> = Seq::empty();
    let mut out: Vec<Vec<String>> = Vec::new();
    let mut line = at;
    let mut k: usize = 0;
    while k < n
        invariant
            k <= n,
            n == poi_group_count(version),
            ls == lines_view(lines@),
            total == sp_text_groups(ls, at as int, version, n as nat),
            out@.len() == k,
            models.len() == k,
            forall|i: int| 0 <= i < k ==> lines_view((#[trigger] out@[i])@) == models[i],
            total == groups_after(models, sp_text_groups(ls, line as int, version, (n - k) as nat)),
        decreases n - k,
    {
        match text_group(lines, line, version) {
            Some((g, q)) => {
                let ghost gv = lines_view(g@);
                proof {
                    let rest = sp_text_groups(ls, q as int, version, (n - k - 1) as nat);
                    if let Some((r2, e)) = rest {
                        assert(models + (seq![gv] + r2) =~= models.push(gv) + r2);
                    }
                    models = models.push(gv);
                }
                out.push(g);
                line = q;
            },
            None => {
                return None;
            },
        }
        k = k + 1;
    }
    assert(out@.map_values(|g: Vec<String>| lines_view(g@)) =~= models);
    assert(models + Seq::<Seq<Seq<char>>>::empty() =~= models);
    Some((out, line))
}

/// Model of a [`Thingy`].
pub open spec fn thingy_model(t: Thingy) -> ThingyModel {
    ThingyModel {
        et_file: t.et_file.deep_view(),
        int: t.int,
        bools: seq![t.bool1, t.bool2, t.bool3],
    }
}

/// `n` thingy lines from line `at`: the thingies and the line after them.
pub open spec fn sp_thingies(ls: Seq<Seq<char>>, at: int, n: nat, strings: Seq<Seq<char>>) -> LineStep<
    Seq<ThingyModel>,
>
    decreases n,
{
    if n == 0 {
        LineStep::Done(Seq::empty(), at)
    } else if 0 <= at < ls.len() {
        match sp_thingy(ls[at], 0, strings) {
            LineStep::Done(t, _) => match sp_thingies(ls, at + 1, (n - 1) as nat, strings) {
                LineStep::Done(rest, end) => LineStep::Done(seq![t] + rest, end),
                LineStep::Fail => LineStep::Fail,
                LineStep::Abort => LineStep::Abort,
            },
            LineStep::Fail => LineStep::Fail,
            LineStep::Abort => LineStep::Abort,
        }
    } else {
        LineStep::Fail
    }
}

/// Reads `n` thingy lines from line `at`: the thingies and the line after them.
pub fn thingies(lines: &[String], at: usize, n: usize, strings: &[String]) -> (r: Option<(Vec<Thingy>, usize)>)
    requires
        !(sp_thingies(lines_view(lines@), at as int, n as nat, strings.deep_view()) is Abort),
    ensures
        match sp_thingies(lines_view(lines@), at as int, n as nat, strings.deep_view()) {
            LineStep::Done(ts, q) => r matches Some((v, q2)) && v@.map_values(
                |t: Thingy| thingy_model(t),
            ) == ts && q2 == q,
            _ => r is None,
        },
{
    let ghost ls = lines_view(lines@);
    let ghost st = strings.deep_view();
    let ghost total = sp_thingies(ls, at as int, n as nat, st);
    let ghost mut models: Seq<ThingyModel> = Seq::empty();
    let mut out: Vec<Thingy> = Vec::new();
    let mut line = at;
    let mut k: usize = 0;
    while k < n
        invariant
            k <= n,
            line == at + k,
            k == 0 || line <= lines@.len(),
            ls == lines_view(lines@),
            st == strings.deep_view(),
            total == sp_thingies(ls, at as int, n as nat, st),
            !(total is Abort),
            out@.len() == k,
            models.len() == k,
            forall|i: int| 0 <= i < k ==> thingy_model(#[trigger] out@[i]) == models[i],
            total == row_after(models, sp_thingies(ls, line as int, (n - k) as nat, st)),
        decreases n - k,
    {
        if line >= lines.len() {
            return None;
        }
        assert(lines[line as int]@ == ls[line as int]);
        match thingy(lines[line].as_str(), strings) {
            Some((t, _)) => {
                let ghost tv = thingy_model(t);
                proof {
                    let rest = sp_thingies(ls, line + 1, (n - k - 1) as nat, st);
                    if let LineStep::Done(r2, e) = rest {
                        assert(models + (seq![tv] + r2) =~= models.push(tv) + r2);
                    }
                    models = models.push(tv);
                }
                out.push(t);
            },
            None => {
                return None;
            },
        }
        k = k + 1;
        line = line + 1;
    }
    assert(out@.map_values(|t: Thingy| thingy_model(t)) =~= models);
    assert(models + Seq::<ThingyModel>::empty() =~= models);
    Some((out, line))
}

/// The booleans that follow at `p`, each after one or more spaces or tabs. Stops before blanks
/// that no boolean follows.
pub open spec fn sp_bools_after(s: Seq<char>, p: int) -> (Seq<bool>, int)
    decreases s.len() - p,
{
    match sp_space1(s, p) {
        Some(q) => match sp_bool(s, q) {
            Some((v, q2)) => if p < q2 <= s.len() {
                let (rest, end) = sp_bools_after(s, q2);
                (seq![v] + rest, end)
            } else {
                (Seq::empty(), p)
            },
            None => (Seq::empty(), p),
        },
        None => (Seq::empty(), p),
    }
}

/// A line of one or more booleans (0 or 1) separated by spaces or tabs.
pub open spec fn sp_bools(s: Seq<char>) -> Option<(Seq<bool>, int)> {
    match sp_bool(s, 0) {
        Some((v, q)) => {
            let (rest, end) = sp_bools_after(s, q);
            Some((seq![v] + rest, end))
        },
        None => None,
    }
}

/// Reads a line of booleans, as [`sp_bools`] says.
pub fn bools(line: &str) -> (r: Option<(Vec<bool>, usize)>)
    ensures
        match sp_bools(line@) {
            Some((vs, q)) => r matches Some((v, q2)) && v@ == vs && q2 == q,
            None => r is None,
        },
{
    let chars = chars_of(line);
    let s = chars.as_slice();
    proof {
        lemma_positions(s@, 0);
    }
    let (first, q0) = match bool_at(s, 0) {
        Some(x) => x,
        None => {
            return None;
        },
    };
    let ghost total = sp_bools_after(s@, q0 as int);
    let mut out: Vec<bool> = Vec::new();
    out.push(first);
    let mut at = q0;
    loop
        invariant
            at <= s@.len(),
            s@ == line@,
            sp_bool(s@, 0) == Some((first, q0 as int)),
            total == sp_bools_after(s@, q0 as int),
            seq![first] + total.0 == out@ + sp_bools_after(s@, at as int).0,
            total.1 == sp_bools_after(s@, at as int).1,
        decreases s@.len() - at,
    {
        proof {
            lemma_positions(s@, at as int);
        }
        let q = match space1_at(s, at) {
            Some(q) => q,
            None => {
                assert(sp_bools_after(s@, at as int) == (Seq::<bool>::empty(), at as int));
                assert(out@ + Seq::<bool>::empty() =~= out@);
                return Some((out, at));
            },
        };
        proof {
            lemma_positions(s@, q as int);
        }
        match bool_at(s, q) {
            Some((v, q2)) => {
                if !(at < q2 && q2 <= s.len()) {
                    assert(out@ + Seq::<bool>::empty() =~= out@);
                    return Some((out, at));
                }
                let ghost old_out = out@;
                out.push(v);
                assert(old_out + (seq![v] + sp_bools_after(s@, q2 as int).0) =~= out@
                    + sp_bools_after(s@, q2 as int).0);
                at = q2;
            },
            None => {
                assert(sp_bools_after(s@, at as int) == (Seq::<bool>::empty(), at as int));
                assert(out@ + Seq::<bool>::empty() =~= out@);
                return Some((out, at));
            },
        }
    }
}

/// A quoted string at the start of a line, as [`super::sections::quoted_line`] says.
pub fn quoted_text(line: &str) -> (r: Option<String>)
    ensures
        match sp_quoted(line@, 0) {
            Some((t, _)) => r matches Some(v) && v@ == t,
            None => r is None,
        },
{
    let chars = chars_of(line);
    match quoted_at(chars.as_slice(), 0) {
        Some((t, _)) => Some(t),
        None => None,
    }
}

/// The line at `at`, if there is one.
pub open spec fn line_at(ls: Seq<Seq<char>>, at: int) -> Option<Seq<char>> {
    if 0 <= at < ls.len() {
        Some(ls[at])
    } else {
        None
    }
}

/// The sum of some numbers.
pub open spec fn seq_sum(s: Seq<u32>) -> int
    decreases s.len(),
{
    if s.len() == 0 {
        0
    } else {
        seq_sum(s.drop_last()) + s.last()
    }
}

/// A sum over a prefix is no more than the sum over the whole.
proof fn lemma_sum_prefix(s: Seq<u32>, i: int)
    requires
        0 <= i <= s.len(),
    ensures
        0 <= seq_sum(s.take(i)) <= seq_sum(s),
    decreases s.len(),
{
    if s.len() > 0 {
        if i == s.len() {
            assert(s.take(i) =~= s);
            lemma_sum_prefix(s.drop_last(), s.len() - 1);
            assert(s.drop_last().take(s.len() - 1) =~= s.drop_last());
        } else {
            lemma_sum_prefix(s.drop_last(), i);
            assert(s.drop_last().take(i) =~= s.take(i));
        }
    }
}

/// The sum of some numbers, or `None` where it does not fit in a `u32`.
fn checked_sum(v: &Vec<u32>) -> (r: Option<u32>)
    ensures
        match r {
            Some(t) => t == seq_sum(v@),
            None => seq_sum(v@) > u32::MAX,
        },
{
    let mut total: u32 = 0;
    let mut i: usize = 0;
    assert(v@.take(0) =~= Seq::<u32>::empty());
    while i < v.len()
        invariant
            i <= v@.len(),
            total == seq_sum(v@.take(i as int)),
        decreases v@.len() - i,
    {
        assert(v@.take(i + 1).drop_last() =~= v@.take(i as int));
        if total > u32::MAX - v[i] {
            proof {
                lemma_sum_prefix(v@, i + 1);
            }
            return None;
        }
        total = total + v[i];
        i = i + 1;
    }
    assert(v@.take(v@.len() as int) =~= v@);
    Some(total)
}

/// Model of the opening lines of a room file.
pub struct MapIntroModel {
    pub version: u32,
    pub strings: Seq<Seq<char>>,
    pub dimensions: (u32, Option<u32>),
    pub numbers1: Seq<u32>,
    pub tag: Seq<char>,
    pub bools: Seq<bool>,
}

/// The opening lines of a room file: the version line, the string table, then one line each of
/// dimensions, numbers, a quoted tag and booleans. Gives them and the line after.
pub open spec fn sp_map_intro(ls: Seq<Seq<char>>) -> Option<(MapIntroModel, int)> {
    match line_at(ls, 0) {
        None => None,
        Some(l0) => match sp_version_line(l0) {
            None => None,
            Some((version, _)) => match sp_string_section(ls, 1) {
                None => None,
                Some((strings, p)) => match (
                    line_at(ls, p),
                    line_at(ls, p + 1),
                    line_at(ls, p + 2),
                    line_at(ls, p + 3),
                ) {
                    (Some(l1), Some(l2), Some(l3), Some(l4)) => match (
                        sp_dimensions(l1, 0, version),
                        sp_uints(l2),
                        sp_quoted(l3, 0),
                        sp_bools(l4),
                    ) {
                        (Some((side, uint1, _)), Some((numbers1, _)), Some((tag, _)), Some((bools, _))) => Some(
                            (
                                MapIntroModel {
                                    version,
                                    strings,
                                    dimensions: (side, uint1),
                                    numbers1,
                                    tag,
                                    bools,
                                },
                                p + 4,
                            ),
                        ),
                        _ => None,
                    },
                    _ => None,
                },
            },
        },
    }
}

/// The opening lines of a room file.
struct MapIntro {
    version: u32,
    strings: Vec<String>,
    dimensions: Dimension,
    numbers1: Vec<u32>,
    tag: String,
    bools: Vec<bool>,
}

/// Model of the opening lines.
spec fn intro_model(m: MapIntro) -> MapIntroModel {
    MapIntroModel {
        version: m.version,
        strings: lines_view(m.strings@),
        dimensions: (m.dimensions.side_length, m.dimensions.uint1),
        numbers1: m.numbers1@,
        tag: m.tag@,
        bools: m.bools@,
    }
}

/// Reads the opening lines, as [`sp_map_intro`] says.
fn map_intro(lines: &[String]) -> (r: Option<(MapIntro, usize)>)
    ensures
        match sp_map_intro(lines_view(lines@)) {
            Some((m, p)) => r matches Some((v, q)) && intro_model(v) == m && q == p,
            None => r is None,
        },
{
    let ghost ls = lines_view(lines@);
    if lines.len() == 0 {
        return None;
    }
    assert(lines[0]@ == ls[0]);
    let version = match version_line(lines[0].as_str()) {
        Some((v, _)) => v,
        None => {
            return None;
        },
    };
    let (strings, p) = match string_section(lines, 1) {
        Some(x) => x,
        None => {
            return None;
        },
    };
    if p >= lines.len() || lines.len() - p < 4 {
        return None;
    }
    assert(lines[p as int]@ == ls[p as int]);
    assert(lines[p + 1]@ == ls[p + 1]);
    assert(lines[p + 2]@ == ls[p + 2]);
    assert(lines[p + 3]@ == ls[p + 3]);
    let dims = match dimensions(lines[p].as_str(), version) {
        Some((d, _)) => d,
        None => {
            return None;
        },
    };
    let numbers1 = match uints(lines[p + 1].as_str()) {
        Some((v, _)) => v,
        None => {
            return None;
        },
    };
    let tag = match quoted_text(lines[p + 2].as_str()) {
        Some(t) => t,
        None => {
            return None;
        },
    };
    let flags = match bools(lines[p + 3].as_str()) {
        Some((v, _)) => v,
        None => {
            return None;
        },
    };
    let intro = MapIntro { version, strings, dimensions: dims, numbers1, tag, bools: flags };
    Some((intro, p + 4))
}

/// Model of the head of a room file: the opening lines, then its root slot, thingies, groups of
/// points of interest, an extra string, and its grid.
pub struct MapHeadModel {
    pub intro: MapIntroModel,
    pub root_slot: SlotModel,
    pub thingies: Seq<ThingyModel>,
    pub points_of_interest: Seq<Seq<Seq<char>>>,
    pub string1: Option<Seq<char>>,
    pub grid: Seq<Seq<SlotModel>>,
}

/// How many rows the grid has: the height of a "k" root slot, else one.
pub open spec fn grid_height(root: SlotModel) -> nat {
    match root {
        SlotModel::K(k) => k.height as nat,
        _ => 1,
    }
}

/// From version 35, a line holding a quoted string; before it, nothing.
pub open spec fn sp_string1(ls: Seq<Seq<char>>, at: int, version: u32) -> Option<(Option<Seq<char>>, int)> {
    if version >= 35 {
        match line_at(ls, at) {
            Some(l) => match sp_quoted(l, 0) {
                Some((t, _)) => Some((Some(t), at + 1)),
                None => None,
            },
            None => None,
        }
    } else {
        Some((None, at))
    }
}

/// The head of a room file. There are twice as many thingy lines as the numbers of the numbers
/// line add up to; that sum must fit in a `u32` (and twice it in a `usize`), else reading
/// panics. Gives the head and the line after the grid.
pub open spec fn sp_map_head(ls: Seq<Seq<char>>) -> LineStep<MapHeadModel> {
    match sp_map_intro(ls) {
        None => LineStep::Fail,
        Some((intro, p)) => match line_at(ls, p) {
            None => LineStep::Fail,
            Some(l) => match sp_slot(l, 0, intro.strings) {
                LineStep::Fail => LineStep::Fail,
                LineStep::Abort => LineStep::Abort,
                LineStep::Done(root, _) => {
                    let sum = seq_sum(intro.numbers1);
                    if sum > u32::MAX || 2 * sum > usize::MAX {
                        LineStep::Abort
                    } else {
                        match sp_thingies(ls, p + 1, (2 * sum) as nat, intro.strings) {
                            LineStep::Fail => LineStep::Fail,
                            LineStep::Abort => LineStep::Abort,
                            LineStep::Done(things, p2) => match sp_text_groups(
                                ls,
                                p2,
                                intro.version,
                                poi_group_count(intro.version),
                            ) {
                                None => LineStep::Fail,
                                Some((poi, p3)) => match sp_string1(ls, p3, intro.version) {
                                    None => LineStep::Fail,
                                    Some((string1, p4)) => match sp_grid(
                                        ls,
                                        p4,
                                        grid_height(root),
                                        intro.strings,
                                    ) {
                                        LineStep::Fail => LineStep::Fail,
                                        LineStep::Abort => LineStep::Abort,
                                        LineStep::Done(g, p5) => LineStep::Done(
                                            MapHeadModel {
                                                intro,
                                                root_slot: root,
                                                thingies: things,
                                                points_of_interest: poi,
                                                string1,
                                                grid: g,
                                            },
                                            p5,
                                        ),
                                    },
                                },
                            },
                        }
                    }
                },
            },
        },
    }
}

/// The head of a room file.
struct MapHead {
    intro: MapIntro,
    root_slot: Slot,
    thingies: Vec<Thingy>,
    points_of_interest: Vec<Vec<String>>,
    string1: Option<String>,
    grid: Vec<Vec<Slot>>,
}

/// Model of the head.
spec fn head_model(h: MapHead) -> MapHeadModel {
    MapHeadModel {
        intro: intro_model(h.intro),
        root_slot: h.root_slot@,
        thingies: h.thingies@.map_values(|t: Thingy| thingy_model(t)),
        points_of_interest: h.points_of_interest@.map_values(|g: Vec<String>| lines_view(g@)),
        string1: h.string1.deep_view(),
        grid: h.grid@.map_values(|row: Vec<Slot>| slots_view(row@)),
    }
}

/// Reads the extra string line, as [`sp_string1`] says.
fn string1_line(lines: &[String], at: usize, version: u32) -> (r: Option<(Option<String>, usize)>)
    ensures
        match sp_string1(lines_view(lines@), at as int, version) {
            Some((t, q)) => r matches Some((v, q2)) && v.deep_view() == t && q2 == q,
            None => r is None,
        },
{
    if version < 35 {
        return Some((None, at));
    }
    if at >= lines.len() {
        return None;
    }
    assert(lines[at as int]@ == lines_view(lines@)[at as int]);
    match quoted_text(lines[at].as_str()) {
        Some(t) => Some((Some(t), at + 1)),
        None => None,
    }
}

/// Reads the head of a room file, as [`sp_map_head`] says.
fn map_head(lines: &[String]) -> (r: Option<(MapHead, usize)>)
    requires
        !(sp_map_head(lines_view(lines@)) is Abort),
    ensures
        match sp_map_head(lines_view(lines@)) {
            LineStep::Done(m, p) => r matches Some((v, q)) && head_model(v) == m && q == p,
            _ => r is None,
        },
{
    let ghost ls = lines_view(lines@);
    let (intro, p) = match map_intro(lines) {
        Some(x) => x,
        None => {
            return None;
        },
    };
    let ghost st = intro_model(intro).strings;
    assert(intro.strings.deep_view() =~= st);
    if p >= lines.len() {
        return None;
    }
    assert(lines[p as int]@ == ls[p as int]);
    let root = match root_slot(lines[p].as_str(), intro.strings.as_slice()) {
        Some((slot, _)) => slot,
        None => {
            return None;
        },
    };
    let sum = match checked_sum(&intro.numbers1) {
        Some(t) => t,
        None => {
            return None;
        },
    };
    let count = if (sum as usize) <= usize::MAX / 2 {
        2 * (sum as usize)
    } else {
        return None;
    };
    let (things, p2) = match thingies(lines, p + 1, count, intro.strings.as_slice()) {
        Some(x) => x,
        None => {
            return None;
        },
    };
    let (poi, p3) = match poi_groups(lines, p2, intro.version) {
        Some(x) => x,
        None => {
            return None;
        },
    };
    let (string1, p4) = match string1_line(lines, p3, intro.version) {
        Some(x) => x,
        None => {
            return None;
        },
    };
    let height: usize = match &root {
        Slot::K(k) => k.height as usize,
        _ => 1,
    };
    let (rows, p5) = match grid(lines, p4, height, intro.strings.as_slice()) {
        Some(x) => x,
        None => {
            return None;
        },
    };
    let head = MapHead {
        intro,
        root_slot: root,
        thingies: things,
        points_of_interest: poi,
        string1,
        grid: rows,
    };
    Some((head, p5))
}

/// Model of the last lines of a room file.
pub struct MapEndModel {
    pub zones: Option<Seq<ZoneModel>>,
    pub tags: Option<Seq<Seq<char>>>,
    pub trailing: Option<Seq<u32>>,
}

/// The last lines of a room file from line `at`: the zones (from version 27), a line of tags
/// where one is there (from version 10), and a line of numbers where one is there. Reading panics
/// where lines are left after them.
pub open spec fn sp_map_end(ls: Seq<Seq<char>>, at: int, version: u32) -> LineStep<MapEndModel> {
    let zs = if version >= 27 {
        match sp_zones(ls, at, version) {
            Some((z, q)) => Some((Some(z), q)),
            None => None,
        }
    } else {
        Some((None, at))
    };
    match zs {
        None => LineStep::Fail,
        Some((zone_list, q1)) => {
            let (tag_list, q2) = if version >= 10 {
                sp_tags(ls, q1)
            } else {
                (None, q1)
            };
            let (numbers, q3) = sp_trailing(ls, q2);
            if q3 < ls.len() {
                LineStep::Abort
            } else {
                LineStep::Done(MapEndModel { zones: zone_list, tags: tag_list, trailing: numbers }, q3)
            }
        },
    }
}

/// The last lines of a room file.
struct MapEnd {
    zones: Option<Vec<Zone>>,
    tags: Option<Vec<String>>,
    trailing: Option<Vec<u32>>,
}

/// Model of the last lines.
spec fn end_model(e: MapEnd) -> MapEndModel {
    MapEndModel {
        zones: match e.zones {
            Some(v) => Some(v@.map_values(|z: Zone| zone_model(z))),
            None => None,
        },
        tags: match e.tags {
            Some(v) => Some(lines_view(v@)),
            None => None,
        },
        trailing: match e.trailing {
            Some(v) => Some(v@),
            None => None,
        },
    }
}

/// Reads the last lines, as [`sp_map_end`] says.
fn map_end(lines: &[String], at: usize, version: u32) -> (r: Option<MapEnd>)
    requires
        !(sp_map_end(lines_view(lines@), at as int, version) is Abort),
    ensures
        match sp_map_end(lines_view(lines@), at as int, version) {
            LineStep::Done(m, _) => r matches Some(v) && end_model(v) == m,
            _ => r is None,
        },
{
    let ghost ls = lines_view(lines@);
    let (zone_list, q1) = if version >= 27 {
        match zones(lines, at, version) {
            Some((z, q)) => (Some(z), q),
            None => {
                return None;
            },
        }
    } else {
        (None, at)
    };
    let (tag_list, q2) = if version >= 10 {
        tags(lines, q1)
    } else {
        (None, q1)
    };
    let (numbers, q3) = trailing(lines, q2);
    proof {
        if let Some(v) = &tag_list {
            assert(lines_view(v@) =~= v@.map_values(|w: String| w@));
        }
    }
    let e = MapEnd { zones: zone_list, tags: tag_list, trailing: numbers };
    Some(e)
}

/// Model of the tail of a room file.
pub struct MapTailModel {
    pub doodads: Seq<Seq<char>>,
    pub doodad_connections: Seq<(u32, u32, Seq<char>)>,
    pub decals: Seq<Seq<char>>,
    pub boss_lines: Option<Seq<Seq<Seq<char>>>>,
    pub end: MapEndModel,
}

/// The text that the last boss line carries over to be read as a line of its own: what is left
/// on it after the names, where that is not empty.
pub open spec fn boss_carried(items: Seq<(Seq<Seq<char>>, Seq<char>)>) -> Seq<Seq<char>> {
    if items.len() > 0 && items.last().1.len() > 0 {
        seq![items.last().1]
    } else {
        Seq::empty()
    }
}

/// The boss lines from line `at` (what the last one carries over is read as the next line),
/// then the last lines: the names on each boss line, and the last lines.
pub open spec fn sp_boss_end(ls: Seq<Seq<char>>, at: int, version: u32) -> LineStep<
    (Seq<Seq<Seq<char>>>, MapEndModel),
> {
    match length_prefixed(ls, at, boss_reader()) {
        None => LineStep::Fail,
        Some((items, q)) => if !boss_lines_ok(ls, at) {
            LineStep::Abort
        } else {
            match sp_map_end(boss_carried(items) + ls.subrange(q, ls.len() as int), 0, version) {
                LineStep::Fail => LineStep::Fail,
                LineStep::Abort => LineStep::Abort,
                LineStep::Done(e, p) => LineStep::Done(
                    (items.map_values(|it: (Seq<Seq<char>>, Seq<char>)| it.0), e),
                    p,
                ),
            }
        },
    }
}

/// Reads the boss lines and the last lines, as [`sp_boss_end`] says.
fn boss_end(lines: &[String], at: usize, version: u32) -> (r: Option<(Vec<Vec<String>>, MapEnd)>)
    requires
        !(sp_boss_end(lines_view(lines@), at as int, version) is Abort),
    ensures
        match sp_boss_end(lines_view(lines@), at as int, version) {
            LineStep::Done((b, e), _) => r matches Some((v, m)) && v@.map_values(
                |names: Vec<String>| lines_view(names@),
            ) == b && end_model(m) == e,
            _ => r is None,
        },
{
    let ghost ls = lines_view(lines@);
    let (names, carried, q4) = match boss_lines(lines, at) {
        Some(x) => x,
        None => {
            return None;
        },
    };
    let ghost items = match length_prefixed(ls, at as int, boss_reader()) {
        Some((it, _)) => it,
        None => Seq::empty(),
    };
    let mut rest: Vec<String> = Vec::new();
    match carried {
        Some(t) => {
            rest.push(t);
        },
        None => {},
    }
    let ghost first = lines_view(rest@);
    assert(first =~= boss_carried(items));
    let mut k = q4;
    while k < lines.len()
        invariant
            q4 <= k <= lines@.len(),
            ls == lines_view(lines@),
            lines_view(rest@) == first + ls.subrange(q4 as int, k as int),
        decreases lines@.len() - k,
    {
        let ghost before = lines_view(rest@);
        let c = lines[k].clone();
        assert(c@ == ls[k as int]);
        rest.push(c);
        assert(lines_view(rest@) =~= before.push(c@));
        assert(first + ls.subrange(q4 as int, k + 1) =~= (first + ls.subrange(q4 as int, k as int)).push(
            c@,
        ));
        k = k + 1;
    }
    let end = match map_end(rest.as_slice(), 0, version) {
        Some(e) => e,
        None => {
            return None;
        },
    };
    proof {
        let b = items.map_values(|it: (Seq<Seq<char>>, Seq<char>)| it.0);
        let got = names@.map_values(|names: Vec<String>| names@.map_values(|n: String| n@));
        assert(got == b);
        assert forall|i: int| 0 <= i < names@.len() implies #[trigger] lines_view(names@[i]@)
            == b[i] by {
            assert(got[i] == names@[i]@.map_values(|n: String| n@));
        }
        assert(names@.map_values(|names: Vec<String>| lines_view(names@)) =~= b);
    }
    Some((names, end))
}

/// The tail of a room file from line `at`: the doodads, the doodad connections (from version
/// 23), the decals, the boss lines (from version 22; what the last one carries over is read as
/// the next line), and the last lines.
pub open spec fn sp_map_tail(ls: Seq<Seq<char>>, at: int, version: u32) -> LineStep<MapTailModel> {
    match sp_text_group(ls, at, version) {
        None => LineStep::Fail,
        Some((doodads, q1)) => {
            let conns = if version >= 23 {
                sp_doodad_connections(ls, q1, version)
            } else {
                Some((Seq::empty(), q1))
            };
            match conns {
                None => LineStep::Fail,
                Some((connections, q2)) => match sp_text_group(ls, q2, version) {
                    None => LineStep::Fail,
                    Some((decals, q3)) => if version >= 22 {
                        match sp_boss_end(ls, q3, version) {
                            LineStep::Fail => LineStep::Fail,
                            LineStep::Abort => LineStep::Abort,
                            LineStep::Done((bosses, e), q) => LineStep::Done(
                                MapTailModel {
                                    doodads,
                                    doodad_connections: connections,
                                    decals,
                                    boss_lines: Some(bosses),
                                    end: e,
                                },
                                q,
                            ),
                        }
                    } else {
                        match sp_map_end(ls, q3, version) {
                            LineStep::Fail => LineStep::Fail,
                            LineStep::Abort => LineStep::Abort,
                            LineStep::Done(e, q) => LineStep::Done(
                                MapTailModel {
                                    doodads,
                                    doodad_connections: connections,
                                    decals,
                                    boss_lines: None,
                                    end: e,
                                },
                                q,
                            ),
                        }
                    },
                },
            }
        },
    }
}

/// The tail of a room file.
struct MapTail {
    doodads: Vec<String>,
    doodad_connections: Vec<DoodadConnection>,
    decals: Vec<String>,
    boss_lines: Option<Vec<Vec<String>>>,
    end: MapEnd,
}

/// Model of the tail.
spec fn tail_model(t: MapTail) -> MapTailModel {
    MapTailModel {
        doodads: lines_view(t.doodads@),
        doodad_connections: t.doodad_connections@.map_values(|c: DoodadConnection| connection_model(c)),
        decals: lines_view(t.decals@),
        boss_lines: match t.boss_lines {
            Some(v) => Some(v@.map_values(|names: Vec<String>| lines_view(names@))),
            None => None,
        },
        end: end_model(t.end),
    }
}

/// Reads the tail of a room file, as [`sp_map_tail`] says.
fn map_tail(lines: &[String], at: usize, version: u32) -> (r: Option<MapTail>)
    requires
        !(sp_map_tail(lines_view(lines@), at as int, version) is Abort),
    ensures
        match sp_map_tail(lines_view(lines@), at as int, version) {
            LineStep::Done(m, _) => r matches Some(v) && tail_model(v) == m,
            _ => r is None,
        },
{
    let ghost ls = lines_view(lines@);
    let (doodads, q1) = match text_group(lines, at, version) {
        Some(x) => x,
        None => {
            return None;
        },
    };
    let (connections, q2) = if version >= 23 {
        match doodad_connections(lines, q1, version) {
            Some(x) => x,
            None => {
                return None;
            },
        }
    } else {
        let v: Vec<DoodadConnection> = Vec::new();
        assert(v@.map_values(|c: DoodadConnection| connection_model(c)) =~= Seq::<
            (u32, u32, Seq<char>),
        >::empty());
        (v, q1)
    };
    let (decals, q3) = match text_group(lines, q2, version) {
        Some(x) => x,
        None => {
            return None;
        },
    };
    if version >= 22 {
        let (names, end) = match boss_end(lines, q3, version) {
            Some(x) => x,
            None => {
                return None;
            },
        };
        let t = MapTail {
            doodads,
            doodad_connections: connections,
            decals,
            boss_lines: Some(names),
            end,
        };
        Some(t)
    } else {
        let end = match map_end(lines, q3, version) {
            Some(e) => e,
            None => {
                return None;
            },
        };
        let t = MapTail { doodads, doodad_connections: connections, decals, boss_lines: None, end };
        Some(t)
    }
}

/// Model of a room layout file.
pub struct MapModel {
    pub head: MapHeadModel,
    pub tail: MapTailModel,
}

/// A whole room layout file, given as its non-empty lines: the head, then the tail.
pub open spec fn sp_map(ls: Seq<Seq<char>>) -> LineStep<MapModel> {
    match sp_map_head(ls) {
        LineStep::Fail => LineStep::Fail,
        LineStep::Abort => LineStep::Abort,
        LineStep::Done(h, p) => match sp_map_tail(ls, p, h.intro.version) {
            LineStep::Fail => LineStep::Fail,
            LineStep::Abort => LineStep::Abort,
            LineStep::Done(t, q) => LineStep::Done(MapModel { head: h, tail: t }, q),
        },
    }
}

/// A room layout file. Each point of interest, doodad and decal is kept as the text of its line.
pub struct MapFile {
    pub version: u32,
    pub strings: Vec<String>,
    pub dimensions: Dimension,
    pub numbers1: Vec<u32>,
    pub tag: String,
    pub bools: Vec<bool>,
    pub root_slot: Slot,
    pub thingies: Vec<Thingy>,
    pub points_of_interest: Vec<Vec<String>>,
    pub string1: Option<String>,
    pub grid: Vec<Vec<Slot>>,
    pub doodads: Vec<String>,
    pub doodad_connections: Vec<DoodadConnection>,
    pub decals: Vec<String>,
    pub boss_lines: Option<Vec<Vec<String>>>,
    pub zones: Option<Vec<Zone>>,
    pub tags: Option<Vec<String>>,
    pub trailing: Option<Vec<u32>>,
}

impl View for MapFile {
    type V = MapModel;

    open spec fn view(&self) -> MapModel {
        MapModel {
            head: MapHeadModel {
                intro: MapIntroModel {
                    version: self.version,
                    strings: lines_view(self.strings@),
                    dimensions: (self.dimensions.side_length, self.dimensions.uint1),
                    numbers1: self.numbers1@,
                    tag: self.tag@,
                    bools: self.bools@,
                },
                root_slot: self.root_slot@,
                thingies: self.thingies@.map_values(|t: Thingy| thingy_model(t)),
                points_of_interest: self.points_of_interest@.map_values(
                    |g: Vec<String>| lines_view(g@),
                ),
                string1: self.string1.deep_view(),
                grid: self.grid@.map_values(|row: Vec<Slot>| slots_view(row@)),
            },
            tail: MapTailModel {
                doodads: lines_view(self.doodads@),
                doodad_connections: self.doodad_connections@.map_values(
                    |c: DoodadConnection| connection_model(c),
                ),
                decals: lines_view(self.decals@),
                boss_lines: match self.boss_lines {
                    Some(v) => Some(v@.map_values(|names: Vec<String>| lines_view(names@))),
                    None => None,
                },
                end: MapEndModel {
                    zones: match self.zones {
                        Some(v) => Some(v@.map_values(|z: Zone| zone_model(z))),
                        None => None,
                    },
                    tags: match self.tags {
                        Some(v) => Some(lines_view(v@)),
                        None => None,
                    },
                    trailing: match self.trailing {
                        Some(v) => Some(v@),
                        None => None,
                    },
                },
            },
        }
    }
}

/// Reads a room layout file from its non-empty lines. `None` where the text does not follow the
/// format.
pub fn parse_map(lines: &[String]) -> (r: Option<MapFile>)
    requires
        !(sp_map(lines_view(lines@)) is Abort),
    ensures
        match sp_map(lines_view(lines@)) {
            LineStep::Done(m, _) => r matches Some(f) && f@ == m,
            _ => r is None,
        },
{
    let (head, p) = match map_head(lines) {
        Some(x) => x,
        None => {
            return None;
        },
    };
    let tail = match map_tail(lines, p, head.intro.version) {
        Some(t) => t,
        None => {
            return None;
        },
    };
    let MapHead { intro, root_slot, thingies, points_of_interest, string1, grid } = head;
    let MapIntro { version, strings, dimensions, numbers1, tag, bools } = intro;
    let MapTail { doodads, doodad_connections, decals, boss_lines, end } = tail;
    let MapEnd { zones, tags, trailing } = end;
    Some(
        MapFile {
            version,
            strings,
            dimensions,
            numbers1,
            tag,
            bools,
            root_slot,
            thingies,
            points_of_interest,
            string1,
            grid,
            doodads,
            doodad_connections,
            decals,
            boss_lines,
            zones,
            tags,
            trailing,
        },
    )
}

/// A line piece without the '\r' that ends it, if one does.
pub open spec fn strip_cr(piece: Seq<char>) -> Seq<char> {
    if piece.len() > 0 && piece.last() == '\r' {
        piece.drop_last()
    } else {
        piece
    }
}

/// `done` with the line `piece` added, unless it is empty.
pub open spec fn keep_line(done: Seq<Seq<char>>, piece: Seq<char>) -> Seq<Seq<char>> {
    if piece.len() > 0 {
        done.push(piece)
    } else {
        done
    }
}

/// Splitting a text into lines up to its end: the non-empty lines that a '\n' has closed (each
/// without a '\r' that ends it), and the piece after the last '\n'.
pub open spec fn split_lines(s: Seq<char>) -> (Seq<Seq<char>>, Seq<char>)
    decreases s.len(),
{
    if s.len() == 0 {
        (Seq::empty(), Seq::empty())
    } else {
        let (done, cur) = split_lines(s.drop_last());
        if s.last() == '\n' {
            (keep_line(done, strip_cr(cur)), Seq::empty())
        } else {
            (done, cur.push(s.last()))
        }
    }
}

/// The non-empty lines of a text, as `str::lines` splits it: at each '\n', with a '\r' before
/// it dropped; the last line needs no '\n'.
pub open spec fn nonempty_lines(s: Seq<char>) -> Seq<Seq<char>> {
    let (done, cur) = split_lines(s);
    keep_line(done, cur)
}

/// The non-empty lines of a text, as [`nonempty_lines`] says.
pub fn text_lines(input: &str) -> (r: Vec<String>)
    ensures
        lines_view(r@) == nonempty_lines(input@),
{
    let chars = chars_of(input);
    let ghost s = input@;
    let mut out: Vec<String> = Vec::new();
    let mut cur: Vec<char> = Vec::new();
    let mut i: usize = 0;
    assert(s.take(0) =~= Seq::<char>::empty());
    while i < chars.len()
        invariant
            chars@ == s,
            i <= s.len(),
            (lines_view(out@), cur@) == split_lines(s.take(i as int)),
        decreases s.len() - i,
    {
        assert(s.take(i + 1).drop_last() =~= s.take(i as int));
        assert(s.take(i + 1).last() == chars@[i as int]);
        let c = chars[i];
        if c == '\n' {
            let n = cur.len();
            let keep = if n > 0 && cur[n - 1] == '\r' {
                n - 1
            } else {
                n
            };
            assert(cur@.subrange(0, keep as int) =~= strip_cr(cur@));
            if keep > 0 {
                let line = string_from_chars(&cur.as_slice()[0..keep]);
                let ghost before = lines_view(out@);
                out.push(line);
                assert(lines_view(out@) =~= before.push(strip_cr(cur@)));
            }
            cur = Vec::new();
            assert(cur@ =~= Seq::<char>::empty());
        } else {
            cur.push(c);
        }
        i = i + 1;
    }
    assert(s.take(s.len() as int) =~= s);
    if cur.len() > 0 {
        let ghost before = lines_view(out@);
        let line = string_from_chars(cur.as_slice());
        out.push(line);
        assert(lines_view(out@) =~= before.push(cur@));
    }
    out
}

/// Reads a room layout file from its text: its non-empty lines, read as [`parse_map`] says.
pub fn parse_map_str(input: &str) -> (r: Option<MapFile>)
    requires
        !(sp_map(nonempty_lines(input@)) is Abort),
    ensures
        match sp_map(nonempty_lines(input@)) {
            LineStep::Done(m, _) => r matches Some(f) && f@ == m,
            _ => r is None,
        },
{
    let lines = text_lines(input);
    parse_map(lines.as_slice())
}

/// Reading `n` groups gives `n` groups.
proof fn lemma_text_groups_len(ls: Seq<Seq<char>>, at: int, version: u32, n: nat)
    ensures
        sp_text_groups(ls, at, version, n) matches Some((g, _)) ==> g.len() == n,
    decreases n,
{
    if n > 0 {
        if let Some((_, q)) = sp_text_group(ls, at, version) {
            lemma_text_groups_len(ls, q, version, (n - 1) as nat);
        }
    }
}

/// The head of a room file holds as many groups of points of interest as its version calls for.
proof fn lemma_head_poi_groups(ls: Seq<Seq<char>>)
    ensures
        sp_map_head(ls) matches LineStep::Done(h, _) ==> h.points_of_interest.len()
            == poi_group_count(h.intro.version),
{
    assert forall|at: int, version: u32, n: nat|
        #[trigger] sp_text_groups(ls, at, version, n) is Some implies sp_text_groups(
            ls,
            at,
            version,
            n,
        ).unwrap().0.len() == n by {
        lemma_text_groups_len(ls, at, version, n);
    }
}

/// A room file that reads has 9 groups of points of interest below version 20, 10 from version
/// 20 to 25, 5 from 26 to 28, and 6 from version 29 on.
pub proof fn lemma_poi_group_counts(ls: Seq<Seq<char>>)
    ensures
        sp_map(ls) matches LineStep::Done(m, _) ==> m.head.points_of_interest.len() == (if m.head.intro.version
            < 20 {
            9int
        } else if m.head.intro.version < 26 {
            10int
        } else if m.head.intro.version < 29 {
            5int
        } else {
            6int
        }),
{
    lemma_head_poi_groups(ls);
}

/// Reading `n` thingy lines gives `n` thingies.
proof fn lemma_thingies_len(ls: Seq<Seq<char>>, at: int, n: nat, strings: Seq<Seq<char>>)
    ensures
        sp_thingies(ls, at, n, strings) matches LineStep::Done(t, _) ==> t.len() == n,
    decreases n,
{
    if n > 0 {
        lemma_thingies_len(ls, at + 1, (n - 1) as nat, strings);
    }
}

/// Reading a grid of `height` rows gives `height` rows.
proof fn lemma_grid_len(ls: Seq<Seq<char>>, at: int, height: nat, strings: Seq<Seq<char>>)
    ensures
        sp_grid(ls, at, height, strings) matches LineStep::Done(g, _) ==> g.len() == height,
    decreases height,
{
    if height > 0 {
        lemma_grid_len(ls, at + 1, (height - 1) as nat, strings);
    }
}

/// A room file that reads has twice as many thingies as the numbers of its numbers line add up
/// to, and as many grid rows as its root slot is high where that is a "k" slot, else one.
pub proof fn lemma_map_row_counts(ls: Seq<Seq<char>>)
    ensures
        sp_map_head(ls) matches LineStep::Done(h, _) ==> {
            &&& h.thingies.len() == 2 * seq_sum(h.intro.numbers1)
            &&& h.grid.len() == match h.root_slot {
                SlotModel::K(k) => k.height as int,
                _ => 1int,
            }
        },
{
    assert forall|at: int, n: nat, st: Seq<Seq<char>>|
        #[trigger] sp_thingies(ls, at, n, st) is Done implies sp_thingies(ls, at, n, st)->Done_0.len()
            == n by {
        lemma_thingies_len(ls, at, n, st);
    }
    assert forall|at: int, n: nat, st: Seq<Seq<char>>|
        #[trigger] sp_grid(ls, at, n, st) is Done implies sp_grid(ls, at, n, st)->Done_0.len() == n by {
        lemma_grid_len(ls, at, n, st);
    }
    assert forall|v: Seq<u32>| #[trigger] seq_sum(v) >= 0 by {
        lemma_sum_prefix(v, v.len() as int);
    }
}

} // verus!
