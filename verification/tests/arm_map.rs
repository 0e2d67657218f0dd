use poe_data_tools::arm::map::{parse_map, parse_map_str, text_lines};
use poe_data_tools::arm::types::Slot;

fn lines(text: &[&str]) -> Vec<String> {
    text.iter().map(|l| l.to_string()).collect()
}

fn room_v22() -> Vec<String> {
    let mut v = vec![
        "\u{feff}version 22",
        "2",
        "\"a\"",
        "\"b\"",
        "2 3 1",
        "1 0",
        "\"tag\"",
        "0 1 1",
        "n",
        "1 -5 1 0",
        "0 3",
        "1",
        "1 2 0.5 \"p\"",
    ];
    // Nine more empty groups of points of interest.
    v.extend(std::iter::repeat("0").take(9));
    v.extend([
        "f 2",
        "1",
        "5 6 0.25 \"doodad\"",
        "0",
        "1",
        "\"boss\" \"two\" 3 4 5",
    ]);
    lines(&v)
}

#[test]
fn whole_room_file() {
    let m = parse_map(&room_v22()).expect("the file reads");
    assert_eq!(m.version, 22);
    assert_eq!(m.strings, lines(&["a", "b"]));
    assert_eq!((m.dimensions.side_length, m.dimensions.uint1), (2, Some(1)));
    assert_eq!(m.numbers1, vec![1, 0]);
    assert_eq!(m.tag, "tag");
    assert_eq!(m.bools, vec![false, true, true]);
    assert!(matches!(m.root_slot, Slot::N));
    // Twice as many thingy lines as the numbers add up to.
    assert_eq!(m.thingies.len(), 2);
    assert_eq!(m.thingies[0].et_file, Some("a".to_string()));
    assert_eq!(m.thingies[0].int, -5);
    assert_eq!(
        (m.thingies[0].bool1, m.thingies[0].bool2, m.thingies[0].bool3),
        (Some(true), Some(false), None)
    );
    assert_eq!(m.thingies[1].et_file, None);
    assert_eq!(m.thingies[1].int, 3);
    // Ten groups of points of interest at this version, lines kept as text.
    assert_eq!(m.points_of_interest.len(), 10);
    assert_eq!(m.points_of_interest[0], lines(&["1 2 0.5 \"p\""]));
    assert!(m.points_of_interest[1..].iter().all(|g| g.is_empty()));
    assert_eq!(m.string1, None);
    // A root slot that is no "k" slot gives a grid of one row.
    assert_eq!(m.grid.len(), 1);
    assert_eq!(m.grid[0].len(), 1);
    assert!(matches!(&m.grid[0][0], Slot::F { fill: Some(f) } if f == "b"));
    assert_eq!(m.doodads, lines(&["5 6 0.25 \"doodad\""]));
    assert!(m.doodad_connections.is_empty());
    assert!(m.decals.is_empty());
    assert_eq!(m.boss_lines, Some(vec![lines(&["boss", "two"])]));
    // What the boss line carried over is read as the trailing numbers.
    assert_eq!(m.zones.is_none(), true);
    assert_eq!(m.tags, None);
    assert_eq!(m.trailing, Some(vec![3, 4, 5]));
}

#[test]
fn malformed_room_files() {
    assert!(parse_map(&[]).is_none());
    assert!(parse_map(&lines(&["version 22"])).is_none());
    let mut short = room_v22();
    short.truncate(12);
    assert!(parse_map(&short).is_none());
    let mut bad_bools = room_v22();
    bad_bools[7] = "2 1".to_string();
    assert!(parse_map(&bad_bools).is_none());
}

#[test]
fn text_split_into_lines() {
    assert_eq!(text_lines("a\r\n\nb\rc\n\r\nd\r"), lines(&["a", "b\rc", "d\r"]));
    assert_eq!(text_lines(""), Vec::<String>::new());
    assert_eq!(text_lines("\n\n"), Vec::<String>::new());
    assert_eq!(text_lines("x\n"), lines(&["x"]));
}

#[test]
fn room_file_from_text() {
    let text = room_v22().join("\r\n\r\n") + "\n";
    let m = parse_map_str(&text).expect("the file reads");
    assert_eq!(m.version, 22);
    assert_eq!(m.strings, lines(&["a", "b"]));
    assert_eq!(m.thingies.len(), 2);
    assert_eq!(m.boss_lines, Some(vec![lines(&["boss", "two"])]));
    assert_eq!(m.trailing, Some(vec![3, 4, 5]));
    assert!(parse_map_str("\u{feff}version 22\n").is_none());
}
