use poe_data_tools::art::sprites::{is_mtp_readable, parse_mtp};

fn utf16z(s: &str) -> Vec<u8> {
    let mut out = Vec::new();
    for u in s.encode_utf16() {
        out.extend_from_slice(&u.to_le_bytes());
    }
    out.extend_from_slice(&[0, 0]);
    out
}

fn sprite_file(rows: u32, strings: &[u8]) -> Vec<u8> {
    let mut b = Vec::new();
    b.extend_from_slice(&7u32.to_le_bytes());
    b.extend_from_slice(&rows.to_le_bytes());
    for r in 0..rows {
        let mut row = vec![0u8; 32];
        row[0..4].copy_from_slice(&(r + 1).to_le_bytes());
        row[4..8].copy_from_slice(&2u32.to_le_bytes());
        row[8..12].copy_from_slice(&64u32.to_le_bytes());
        row[12..14].copy_from_slice(&0x0102u16.to_le_bytes());
        for k in 14..22 {
            row[k] = k as u8;
        }
        row[22] = 9;
        row[23..25].copy_from_slice(&0x0304u16.to_le_bytes());
        b.extend_from_slice(&row);
    }
    b.extend_from_slice(&[0xaa; 4]);
    b.extend_from_slice(strings);
    b
}

#[test]
fn sprite_layout() {
    let mut strings = utf16z("art/a.tdt");
    strings.extend(utf16z("art/sheet.dds"));
    let file = parse_mtp(&sprite_file(4, &strings));
    assert_eq!(file.first, (7, 4));
    assert_eq!(file.rows.len(), 4);
    assert_eq!(file.rows[2].x1, 3);
    assert_eq!(file.rows[2].orientation, 2);
    assert_eq!(file.rows[2].sprite_width, 64);
    assert_eq!(file.rows[2].x3, 0x0102);
    assert_eq!(file.rows[2].bytes1, (14u8..22).collect::<Vec<u8>>());
    assert_eq!(file.rows[2].x5, 9);
    assert_eq!(file.rows[2].x6, 0x0304);
    assert_eq!(file.rows[2].raw.len(), 32);
    assert_eq!(file.tdt_paths, vec!["art/a.tdt".to_string()]);
    assert_eq!(file.dds_path, "art/sheet.dds");
}

#[test]
fn sprite_offsets_follow_utf8_length() {
    // "é" is one UTF-16 unit but two UTF-8 bytes, so the next string is looked for at
    // (2 + 1) * 2 = 6 bytes in, past two bytes that belong to neither string.
    let mut strings = utf16z("é");
    strings.extend_from_slice(&[0x41, 0x00]);
    strings.extend(utf16z("x.dds"));
    let file = parse_mtp(&sprite_file(4, &strings));
    assert_eq!(file.tdt_paths, vec!["é".to_string()]);
    assert_eq!(file.dds_path, "x.dds");
}

#[test]
fn sprite_without_paths() {
    let file = parse_mtp(&sprite_file(3, &utf16z("only.dds")));
    assert_eq!(file.rows.len(), 3);
    assert!(file.tdt_paths.is_empty());
    assert_eq!(file.dds_path, "only.dds");
}

#[test]
fn sprite_readability() {
    let mut strings = utf16z("art/a.tdt");
    strings.extend(utf16z("art/sheet.dds"));
    assert!(is_mtp_readable(&sprite_file(4, &strings)));
    // Header cut short.
    assert!(!is_mtp_readable(&[1, 2, 3]));
    // The table runs past the end.
    let file = sprite_file(4, &strings);
    assert!(!is_mtp_readable(&file[..8 + 4 * 32]));
    // An unpaired surrogate in the path.
    let mut bad = vec![0x00, 0xd8, 0x41, 0x00, 0x00, 0x00];
    bad.extend(utf16z("x.dds"));
    assert!(!is_mtp_readable(&sprite_file(4, &bad)));
    // The sheet path would start past the end: "abcdef" is six UTF-8 bytes, so the next
    // string is looked for 14 bytes in, and only 14 bytes are there.
    assert!(is_mtp_readable(&sprite_file(4, &utf16z("abcdef"))));
    let mut shorter = utf16z("abcdef");
    shorter.truncate(12);
    assert!(!is_mtp_readable(&sprite_file(4, &shorter)));
}
