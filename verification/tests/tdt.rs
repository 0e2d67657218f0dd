use poe_data_tools::file_parsers::tdt::grammar::TdtErrorKind;
use poe_data_tools::file_parsers::tdt::parser::{parse_tdt_bytes, tdt_index_cuts_character};
use poe_data_tools::file_parsers::tdt::reader::TDTParser;
use poe_data_tools::file_parsers::versioned::VersionedFile;

/// Version 5, strings "a\0", a header naming "a" with flags 1 and no tail.
fn small_file() -> Vec<u8> {
    let mut b = Vec::new();
    b.extend_from_slice(&5u32.to_le_bytes());
    b.extend_from_slice(&2u32.to_le_bytes());
    b.extend_from_slice(&[0x61, 0, 0, 0]);
    b.extend_from_slice(&0u32.to_le_bytes());
    b.push(1);
    b.extend_from_slice(&7u16.to_le_bytes());
    b.extend_from_slice(&u32::MAX.to_le_bytes());
    b
}

#[test]
fn header_only_file() {
    let f = parse_tdt_bytes(&small_file()).unwrap();
    assert_eq!(f.version, 5);
    assert_eq!(f.strings, "a\0");
    assert_eq!(f.header.tdt_file.as_deref(), Some("a"));
    assert_eq!(f.header.flags, Some(1));
    assert_eq!(f.header.num, Some(7));
    assert_eq!(f.header.tgt_file, None);
    assert_eq!(f.header.tag, None);
    assert!(f.tail.is_none());
    assert_eq!(f.version(), Some(5));
}

#[test]
fn parser_struct_parses() {
    let f = TDTParser.parse(&small_file()).unwrap();
    assert_eq!(f.version, 5);
}

#[test]
fn trailing_bytes_fail_with_version() {
    let mut b = small_file();
    b.push(0);
    let e = parse_tdt_bytes(&b).err().unwrap();
    assert_eq!(e.kind, TdtErrorKind::TrailingBytes);
    assert_eq!(e.version, Some(5));
}

#[test]
fn truncated_file_fails() {
    let e = parse_tdt_bytes(&[1, 0]).err().unwrap();
    assert_eq!(e.kind, TdtErrorKind::Incomplete);
    assert_eq!(e.version, None);
}

#[test]
fn string_index_out_of_bounds() {
    let mut b = small_file();
    b[12] = 9;
    let e = parse_tdt_bytes(&b).err().unwrap();
    assert_eq!(e.kind, TdtErrorKind::StringIndexOutOfBounds);
}

/// Version 5, strings "é\0", and a header whose file name index is `index`.
fn accented_file(index: u32) -> Vec<u8> {
    let mut b = Vec::new();
    b.extend_from_slice(&5u32.to_le_bytes());
    b.extend_from_slice(&2u32.to_le_bytes());
    b.extend_from_slice(&[0xe9, 0, 0, 0]);
    b.extend_from_slice(&index.to_le_bytes());
    b.push(1);
    b.extend_from_slice(&7u16.to_le_bytes());
    b.extend_from_slice(&u32::MAX.to_le_bytes());
    b
}

#[test]
fn string_index_inside_a_character() {
    // "é" takes two bytes in UTF-8, so index 1 falls inside it.
    assert!(tdt_index_cuts_character(&accented_file(1)));
    assert!(!tdt_index_cuts_character(&accented_file(0)));
    assert!(!tdt_index_cuts_character(&small_file()));
    let f = parse_tdt_bytes(&accented_file(0)).unwrap();
    assert_eq!(f.header.tdt_file.as_deref(), Some("é"));
    // Index 3 is past the strings.
    let e = parse_tdt_bytes(&accented_file(3)).err().unwrap();
    assert_eq!(e.kind, TdtErrorKind::StringIndexOutOfBounds);
    assert!(!tdt_index_cuts_character(&accented_file(3)));
}
