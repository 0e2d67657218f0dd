use poe_data_tools::arm::lines::{
    bool_at, dimensions, doodad_connection, i32_at, quoted_at, root_slot, thingy, u32_at,
    unquoted_at, zone,
};
use poe_data_tools::arm::sections::{
    boss_lines, doodad_connections, grid, slot_row, string_section, tags, trailing, uints, version_line, zones,
};
use poe_data_tools::arm::types::{Direction, Slot};

fn chars(s: &str) -> Vec<char> {
    s.chars().collect()
}

fn strings() -> Vec<String> {
    vec!["edge_a".to_string(), "ground_b".to_string(), "tag_c".to_string()]
}

#[test]
fn direction_orders() {
    assert_eq!(
        Direction::cardinal(),
        [Direction::N, Direction::W, Direction::S, Direction::E]
    );
    assert_eq!(
        Direction::diagonals(),
        [Direction::SW, Direction::SE, Direction::NE, Direction::NW]
    );
}

#[test]
fn numbers() {
    assert_eq!(u32_at(&chars("123 x"), 0), Some((123, 3)));
    assert_eq!(u32_at(&chars("4294967295"), 0), Some((u32::MAX, 10)));
    assert_eq!(u32_at(&chars("4294967296"), 0), None);
    assert_eq!(u32_at(&chars("x1"), 0), None);
    assert_eq!(i32_at(&chars("-2147483648"), 0), Some((i32::MIN, 11)));
    assert_eq!(i32_at(&chars("+17,"), 0), Some((17, 3)));
    assert_eq!(i32_at(&chars("2147483648"), 0), None);
    assert_eq!(i32_at(&chars("-"), 0), None);
    assert_eq!(bool_at(&chars("1"), 0), Some((true, 1)));
    assert_eq!(bool_at(&chars("0 "), 0), Some((false, 1)));
    assert_eq!(bool_at(&chars("2"), 0), None);
}

#[test]
fn strings_on_a_line() {
    assert_eq!(quoted_at(&chars("\"a b\" c"), 0), Some(("a b".to_string(), 5)));
    assert_eq!(quoted_at(&chars("\"open"), 0), None);
    assert_eq!(unquoted_at(&chars("name\tnext"), 0), Some(("name".to_string(), 4)));
    assert_eq!(unquoted_at(&chars(" lead"), 0), None);
}

#[test]
fn simple_slots() {
    let s = strings();
    assert!(matches!(root_slot("n", &s), Some((Slot::N, 1))));
    assert!(matches!(root_slot("s", &s), Some((Slot::S, 1))));
    assert!(matches!(root_slot("o", &s), Some((Slot::O, 1))));
    match root_slot("f 2", &s) {
        Some((Slot::F { fill }, 3)) => assert_eq!(fill.as_deref(), Some("ground_b")),
        _ => panic!("expected a fill slot"),
    }
    match root_slot("f 0", &s) {
        Some((Slot::F { fill }, 3)) => assert_eq!(fill, None),
        _ => panic!("expected a fill slot"),
    }
    assert!(root_slot("x", &s).is_none());
}

#[test]
fn k_slot() {
    let s = strings();
    let line = "k 3 4 1 0 0 0 10 11 12 13 14 15 16 17 0 2 0 0 -1 2 -3 4 3 2";
    match root_slot(line, &s) {
        Some((Slot::K(k), end)) => {
            assert_eq!(end, line.chars().count());
            assert_eq!(k.width, 3);
            assert_eq!(k.height, 4);
            assert_eq!(k.edges[0].direction, Direction::N);
            assert_eq!(k.edges[0].edge.as_deref(), Some("edge_a"));
            assert_eq!(k.edges[0].exit, 10);
            assert_eq!(k.edges[0].virtual_exit, 11);
            assert_eq!(k.edges[3].direction, Direction::E);
            assert_eq!(k.edges[3].edge, None);
            assert_eq!(k.edges[3].virtual_exit, 17);
            assert_eq!(k.corners[1].direction, Direction::SE);
            assert_eq!(k.corners[1].ground.as_deref(), Some("ground_b"));
            assert_eq!(k.corners[0].height, -1);
            assert_eq!(k.corners[2].height, -3);
            assert_eq!(k.slot_tag.as_deref(), Some("tag_c"));
            assert_eq!(k.origin, Direction::NE);
        }
        _ => panic!("expected a k slot"),
    }
    // Without an origin the first corner is used.
    let line = "k 1 1 0 0 0 0 0 0 0 0 0 0 0 0 0 0 0 0 0 0 0 0 0";
    match root_slot(line, &s) {
        Some((Slot::K(k), _)) => assert_eq!(k.origin, Direction::SW),
        _ => panic!("expected a k slot"),
    }
    assert!(root_slot("k 1 1 0", &s).is_none());
}

#[test]
fn thingy_line() {
    let s = strings();
    let (t, end) = thingy("3 -5 1 0", &s).unwrap();
    assert_eq!(t.et_file.as_deref(), Some("tag_c"));
    assert_eq!(t.int, -5);
    assert_eq!((t.bool1, t.bool2, t.bool3), (Some(true), Some(false), None));
    assert_eq!(end, 8);
    let (t, end) = thingy("0 2 7", &s).unwrap();
    assert_eq!(t.et_file, None);
    assert_eq!((t.bool1, t.bool2, t.bool3), (None, None, None));
    assert_eq!(end, 3);
    assert!(thingy("0", &s).is_none());
}

#[test]
fn zone_lines() {
    let (z, _) = zone("hall 1 -2 3 4", 30).unwrap();
    assert_eq!(z.name, "hall");
    assert_eq!((z.x_min, z.y_min, z.x_max, z.y_max), (1, -2, 3, 4));
    assert_eq!(z.string1, None);
    let (z, _) = zone("\"big hall\" 0 0 9 9 \"x\" \"env.env\" 5", 36).unwrap();
    assert_eq!(z.name, "big hall");
    assert_eq!(z.string1.as_deref(), Some("x"));
    assert_eq!(z.env_file.as_deref(), Some("env.env"));
    assert_eq!(z.uint1, Some(5));
    assert!(zone("hall 1 2 3", 30).is_none());
}

#[test]
fn dimension_lines() {
    let (d, _) = dimensions("23 5", 20).unwrap();
    assert_eq!((d.side_length, d.uint1), (23, None));
    let (d, _) = dimensions("23 5 1", 25).unwrap();
    assert_eq!((d.side_length, d.uint1), (23, Some(1)));
    let (d, _) = dimensions("23 0", 31).unwrap();
    assert_eq!((d.side_length, d.uint1), (23, Some(0)));
    assert!(dimensions("23", 31).is_none());
}

#[test]
fn doodad_connection_line() {
    let (c, end) = doodad_connection("1 2 \"link\"").unwrap();
    assert_eq!((c.from, c.to), (1, 2));
    assert_eq!(c.tag, "link");
    assert_eq!(end, 10);
    assert!(doodad_connection("1 2 link").is_none());
}

fn lines(text: &[&str]) -> Vec<String> {
    text.iter().map(|l| l.to_string()).collect()
}

#[test]
fn string_table() {
    let ls = lines(&["\u{feff}version 30", "2", "\"first\"", "\"second\" extra", "next"]);
    let (strings, next) = string_section(&ls, 1).unwrap();
    assert_eq!(strings, vec!["first".to_string(), "second".to_string()]);
    assert_eq!(next, 4);

    let empty = lines(&["0", "after"]);
    assert_eq!(
        string_section(&empty, 0),
        Some((vec![], 1))
    );

    // Too few lines for the count, an unquoted item, and a missing count line.
    assert!(string_section(&lines(&["3", "\"a\""]), 0).is_none());
    assert!(string_section(&lines(&["1", "a"]), 0).is_none());
    assert!(string_section(&lines(&["x"]), 0).is_none());
    assert!(string_section(&lines(&[]), 0).is_none());
}

#[test]
fn zone_sections() {
    // Before version 33 the section is length-prefixed.
    let ls = lines(&["2", "hall 1 -2 3 4", "yard 0 0 5 5", "tail"]);
    let (zs, next) = zones(&ls, 0, 30).unwrap();
    assert_eq!(zs.len(), 2);
    assert_eq!(zs[0].name, "hall");
    assert_eq!((zs[0].x_min, zs[0].y_min, zs[0].x_max, zs[0].y_max), (1, -2, 3, 4));
    assert_eq!(zs[1].name, "yard");
    assert_eq!(next, 3);

    // From version 33 it runs up to a line that reads -1.
    let ls = lines(&["hall 1 -2 3 4", "yard 0 0 5 5", "-1", "tail"]);
    let (zs, next) = zones(&ls, 0, 34).unwrap();
    assert_eq!(zs.len(), 2);
    assert_eq!(zs[1].name, "yard");
    assert_eq!(next, 3);

    let ls = lines(&["-1"]);
    assert_eq!(zones(&ls, 0, 34).map(|(z, n)| (z.len(), n)), Some((0, 1)));

    // No closing line, a bad zone line, and a count that runs past the end.
    assert!(zones(&lines(&["hall 1 -2 3 4"]), 0, 34).is_none());
    assert!(zones(&lines(&["hall 1 2", "-1"]), 0, 34).is_none());
    assert!(zones(&lines(&["3", "hall 1 -2 3 4"]), 0, 30).is_none());
}

#[test]
fn version_and_numbers() {
    assert_eq!(version_line("\u{feff}version 36"), Some((36, 11)));
    assert_eq!(version_line("version 36"), None);
    assert_eq!(version_line("\u{feff}version x"), None);
    assert_eq!(uints("1 2 3"), Some((vec![1, 2, 3], 5)));
    // A separator that no number follows is left unread.
    assert_eq!(uints("4 5 x"), Some((vec![4, 5], 3)));
    assert_eq!(uints("4  5"), Some((vec![4], 1)));
    assert_eq!(uints("x"), None);
}

#[test]
fn closing_lines() {
    let ls = lines(&["2 forest cave", "1 2\t3  ", "1 2 x"]);
    assert_eq!(
        tags(&ls, 0),
        (Some(vec!["forest".to_string(), "cave".to_string()]), 1)
    );
    // Not a tag line: the count does not match the words.
    assert_eq!(tags(&lines(&["3 forest cave"]), 0), (None, 0));
    assert_eq!(tags(&ls, 3), (None, 3));
    assert_eq!(trailing(&ls, 1), (Some(vec![1, 2, 3]), 2));
    // Text after the numbers: not a closing line.
    assert_eq!(trailing(&ls, 2), (None, 2));
    assert_eq!(trailing(&ls, 5), (None, 5));
}

#[test]
fn connection_sections() {
    let ls = lines(&["1", "0 3 \"door\"", "rest"]);
    let (cs, next) = doodad_connections(&ls, 0, 30).unwrap();
    assert_eq!(cs.len(), 1);
    assert_eq!((cs[0].from, cs[0].to, cs[0].tag.as_str()), (0, 3, "door"));
    assert_eq!(next, 2);

    let ls = lines(&["0 3 \"door\"", "2 1 \"gate\"", "-1"]);
    let (cs, next) = doodad_connections(&ls, 0, 36).unwrap();
    assert_eq!(cs.len(), 2);
    assert_eq!(cs[1].tag, "gate");
    assert_eq!(next, 3);
    assert!(doodad_connections(&lines(&["0 3 door", "-1"]), 0, 36).is_none());
}

#[test]
fn grid_rows() {
    let st = strings();
    let (row, end) = slot_row("n s o f 1", &st).unwrap();
    assert_eq!(row.len(), 4);
    assert!(matches!(row[0], Slot::N));
    assert!(matches!(row[1], Slot::S));
    assert!(matches!(row[2], Slot::O));
    match &row[3] {
        Slot::F { fill } => assert_eq!(fill.as_deref(), Some("edge_a")),
        _ => panic!("expected a fill slot"),
    }
    assert_eq!(end, 9);
    // A space that no slot follows ends the row before it.
    let (row, end) = slot_row("n x", &st).unwrap();
    assert_eq!(row.len(), 1);
    assert_eq!(end, 1);
    assert!(slot_row("x n", &st).is_none());

    let ls = lines(&["n n", "o", "rest"]);
    let (g, next) = grid(&ls, 0, 2, &st).unwrap();
    assert_eq!(g.len(), 2);
    assert_eq!(g[0].len(), 2);
    assert_eq!(g[1].len(), 1);
    assert_eq!(next, 2);
    // Too few lines for the height, and a line that is no row.
    assert!(grid(&ls, 2, 2, &st).is_none());
    assert!(grid(&lines(&["x"]), 0, 1, &st).is_none());
    assert_eq!(grid(&ls, 5, 0, &st).map(|(g, n)| (g.len(), n)), Some((0, 5)));
}

#[test]
fn boss_sections() {
    let ls = lines(&["2", "\"a\" \"b\" ", "\"c\" 1 2 3", "next"]);
    let (names, carried, next) = boss_lines(&ls, 0).unwrap();
    assert_eq!(
        names,
        vec![
            vec!["a".to_string(), "b".to_string()],
            vec!["c".to_string()]
        ]
    );
    // The last line ran on into the next one: its tail is a line of its own.
    assert_eq!(carried.as_deref(), Some("1 2 3"));
    assert_eq!(next, 3);

    let ls = lines(&["1", "\"boss\" "]);
    assert_eq!(
        boss_lines(&ls, 0),
        Some((vec![vec!["boss".to_string()]], None, 2))
    );
    // Names must be followed by a blank.
    assert!(boss_lines(&lines(&["1", "\"boss\""]), 0).is_none());
    assert_eq!(boss_lines(&lines(&["0"]), 0), Some((vec![], None, 1)));
}
