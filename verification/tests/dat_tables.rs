use poe_data_tools::dat::columns::{column_is_readable, parse_column, ColumnData, ColumnError};
use poe_data_tools::dat::lookup::{find_table_schema, schema_for_file};
use poe_data_tools::dat::raw::{raw_table_would_panic, split_on_8_bb};
use poe_data_tools::dat::schema::{ColumnSchema, DatTableSchema, SchemaCollection};
use poe_data_tools::dat::table_view::{DatError, DatFile};
use poe_data_tools::dat::tables::{parse_table, parse_table_checked};

fn column(name: Option<&str>, ty: &str, array: bool, interval: bool) -> ColumnSchema {
    ColumnSchema {
        name: name.map(|n| n.to_string()),
        description: None,
        array,
        column_type: ty.to_string(),
        unique: false,
        localized: false,
        references: None,
        until: None,
        file: None,
        files: None,
        interval,
    }
}

fn row(id: u32, flag: u8, string_ptr: u64, array_len: u64, array_ptr: u64) -> Vec<u8> {
    let mut r = Vec::new();
    r.extend_from_slice(&id.to_le_bytes());
    r.push(flag);
    r.extend_from_slice(&string_ptr.to_le_bytes());
    r.extend_from_slice(&array_len.to_le_bytes());
    r.extend_from_slice(&array_ptr.to_le_bytes());
    r
}

/// "hi" at pointer 8, "" at pointer 14, the u16 array [1, 2] at pointer 16.
fn variable_data() -> Vec<u8> {
    vec![0x68, 0, 0x69, 0, 0, 0, 0, 0, 1, 0, 2, 0]
}

fn sample_table() -> DatFile {
    DatFile {
        rows: vec![row(7, 1, 8, 2, 16), row(0x01020304, 0, 14, 0, 8)],
        variable_data: variable_data(),
    }
}

fn sample_schema() -> DatTableSchema {
    DatTableSchema {
        valid_for: 3,
        name: "Sample".to_string(),
        columns: vec![
            column(Some("Id"), "u32", false, false),
            column(None, "bool", false, false),
            column(Some("Text"), "string", false, false),
            column(None, "u16", true, false),
        ],
    }
}

#[test]
fn width_is_first_row_length() {
    assert_eq!(sample_table().width(), 29);
    let empty = DatFile { rows: vec![], variable_data: vec![] };
    assert_eq!(empty.width(), 0);
}

#[test]
fn view_col_slices_rows() {
    let t = sample_table();
    let col = t.view_col(0, 4).unwrap();
    assert_eq!(col, vec![&[7u8, 0, 0, 0][..], &[4u8, 3, 2, 1][..]]);
    assert_eq!(t.view_col(26, 4), Err(DatError::ColumnOutOfBounds));
}

#[test]
fn view_col_as_string_reads_pointers() {
    let t = sample_table();
    let strings = t.view_col_as_string(5).unwrap();
    assert_eq!(strings, vec![Ok(Some("hi".to_string())), Ok(None)]);
}

#[test]
fn view_col_as_array_reads_items() {
    let t = sample_table();
    let arrays = t.view_col_as_array(13, 2).unwrap();
    assert_eq!(arrays[0], Ok(vec![&[1u8, 0][..], &[2u8, 0][..]]));
    assert_eq!(arrays[1], Ok(vec![]));
    let parsed = t
        .view_col_as_array_of(13, 2, |b: &[u8]| u16::from_le_bytes([b[0], b[1]]))
        .unwrap();
    assert_eq!(parsed, vec![Ok(vec![1u16, 2]), Ok(vec![])]);
}

#[test]
fn array_pointer_below_eight_underflows() {
    let t = DatFile { rows: vec![row(0, 0, 8, 1, 4)], variable_data: variable_data() };
    let arrays = t.view_col_as_array(13, 2).unwrap();
    assert_eq!(arrays[0], Err(DatError::Underflow));
}

#[test]
fn array_past_variable_data_overflows() {
    let t = DatFile { rows: vec![row(0, 0, 8, 9, 16)], variable_data: variable_data() };
    let arrays = t.view_col_as_array(13, 2).unwrap();
    assert_eq!(arrays[0], Err(DatError::ArraySliceOverflow));
}

#[test]
fn string_pointer_out_of_bounds() {
    let t = DatFile { rows: vec![row(0, 0, 100, 0, 8)], variable_data: variable_data() };
    let strings = t.view_col_as_string(5).unwrap();
    assert_eq!(strings, vec![Err(DatError::ArrayPointerOutOfBounds)]);
}

#[test]
fn array_of_strings() {
    // An array of two string pointers (8 and 14) stored at pointer 20.
    let mut vd = variable_data();
    vd.extend_from_slice(&8u64.to_le_bytes());
    vd.extend_from_slice(&14u64.to_le_bytes());
    let t = DatFile { rows: vec![row(0, 0, 8, 2, 20)], variable_data: vd };
    let arrays = t.view_col_as_array_of_strings(13).unwrap();
    assert_eq!(arrays, vec![Ok(vec![Some("hi".to_string()), None])]);
}

#[test]
fn parse_scalar_columns() {
    let t = sample_table();
    let (taken, data) = parse_column(&t, &column(None, "u32", false, false), 0).unwrap();
    assert_eq!(taken, 4);
    assert_eq!(data, Ok(ColumnData::U32s(vec![7, 0x01020304])));
    let (taken, data) = parse_column(&t, &column(None, "bool", false, false), 4).unwrap();
    assert_eq!(taken, 1);
    assert_eq!(data, Ok(ColumnData::Bools(vec![true, false])));
    let (taken, data) = parse_column(&t, &column(None, "string", false, false), 5).unwrap();
    assert_eq!(taken, 8);
    assert_eq!(
        data,
        Ok(ColumnData::Strings(vec![Some("hi".to_string()), None]))
    );
    let (taken, data) = parse_column(&t, &column(None, "i16", false, false), 0).unwrap();
    assert_eq!(taken, 2);
    assert_eq!(data, Ok(ColumnData::I16s(vec![7, 0x0304])));
}

#[test]
fn parse_array_and_interval_columns() {
    let t = sample_table();
    let (taken, data) = parse_column(&t, &column(None, "u16", true, false), 13).unwrap();
    assert_eq!(taken, 16);
    assert_eq!(data, Ok(ColumnData::U16Arrays(vec![vec![1, 2], vec![]])));
    let (taken, data) = parse_column(&t, &column(None, "i32", false, true), 13).unwrap();
    assert_eq!(taken, 8);
    assert_eq!(data, Ok(ColumnData::I32Arrays(vec![vec![2, 0], vec![0, 0]])));
}

#[test]
fn row_references_and_nulls() {
    let mut r = vec![0xfe; 8];
    r.extend_from_slice(&5u64.to_le_bytes());
    let t = DatFile { rows: vec![r], variable_data: vec![] };
    let (_, data) = parse_column(&t, &column(None, "row", false, false), 0).unwrap();
    assert_eq!(data, Ok(ColumnData::OptU64s(vec![None])));
    let (_, data) = parse_column(&t, &column(None, "row", false, false), 8).unwrap();
    assert_eq!(data, Ok(ColumnData::OptU64s(vec![Some(5)])));
    let (_, data) = parse_column(&t, &column(None, "foreignrow", false, false), 0).unwrap();
    assert_eq!(data, Ok(ColumnData::OptU64s(vec![Some(0xfefe_fefe_fefe_fefe)])));
}

#[test]
fn column_errors() {
    let t = sample_table();
    assert_eq!(
        parse_column(&t, &column(None, "u32", true, true), 0),
        Err(ColumnError::ArrayAndInterval)
    );
    assert_eq!(
        parse_column(&t, &column(None, "weird", false, false), 0),
        Err(ColumnError::UnknownColumnType)
    );
    assert_eq!(
        parse_column(&t, &column(None, "array", true, false), 0),
        Ok((16, Err(ColumnError::UnknownArrayType)))
    );
    assert_eq!(
        parse_column(&t, &column(None, "u32", true, false), 20),
        Err(ColumnError::Dat(DatError::ColumnOutOfBounds))
    );
    assert_eq!(
        parse_column(&t, &column(None, "u32", false, false), 27),
        Ok((4, Err(ColumnError::Dat(DatError::ColumnOutOfBounds))))
    );
    let bad_bool = DatFile { rows: vec![vec![1], vec![2]], variable_data: vec![] };
    assert_eq!(
        parse_column(&bad_bool, &column(None, "bool", false, false), 0),
        Ok((1, Err(ColumnError::InvalidBool(2))))
    );
}

#[test]
fn parse_table_names_columns() {
    let t = sample_table();
    let parsed = parse_table(&t, &sample_schema()).unwrap();
    let names: Vec<&str> = parsed.iter().map(|(n, _)| n.as_str()).collect();
    assert_eq!(names, vec!["Id", "unknown_0", "Text", "unknown_1"]);
    assert_eq!(parsed[0].1, ColumnData::U32s(vec![7, 0x01020304]));
    assert_eq!(parsed[1].1, ColumnData::Bools(vec![true, false]));
    assert_eq!(
        parsed[2].1,
        ColumnData::Strings(vec![Some("hi".to_string()), None])
    );
    assert_eq!(parsed[3].1, ColumnData::U16Arrays(vec![vec![1, 2], vec![]]));
}

#[test]
fn parse_table_skips_unreadable_columns() {
    // The bool column holds a 2: it is skipped, name and all, and each column read keeps its
    // own name.
    let t = DatFile {
        rows: vec![vec![1, 0, 0, 0, 2, 9, 0]],
        variable_data: vec![],
    };
    let schema = DatTableSchema {
        valid_for: 1,
        name: "T".to_string(),
        columns: vec![
            column(Some("A"), "u32", false, false),
            column(Some("B"), "bool", false, false),
            column(Some("C"), "u16", false, false),
        ],
    };
    let parsed = parse_table(&t, &schema).unwrap();
    assert_eq!(parsed.len(), 2);
    assert_eq!(parsed[0].0, "A");
    assert_eq!(parsed[0].1, ColumnData::U32s(vec![1]));
    assert_eq!(parsed[1].0, "C");
    assert_eq!(parsed[1].1, ColumnData::U16s(vec![9]));
}

#[test]
fn parse_table_stops_on_bad_layout() {
    let t = sample_table();
    let schema = DatTableSchema {
        valid_for: 1,
        name: "T".to_string(),
        columns: vec![column(Some("A"), "weird", false, false)],
    };
    assert_eq!(parse_table(&t, &schema).err(), Some(ColumnError::UnknownColumnType));
}

#[test]
fn split_around_marker() {
    let mut input = vec![1u8, 2];
    input.extend([0xbb; 16]);
    input.extend([3, 4]);
    let (before, after) = split_on_8_bb(&input).unwrap();
    assert_eq!(before, &[1, 2]);
    assert_eq!(after, &[3, 4]);
    // The split is around sixteen marker bytes: eight are not enough.
    assert!(split_on_8_bb(&[0xbb; 15]).is_none());
    let mut eight = vec![1u8];
    eight.extend([0xbb; 8]);
    eight.extend([3, 4]);
    assert!(split_on_8_bb(&eight).is_none());
}

#[test]
fn raw_table_bytes() {
    let mut bytes = 2u32.to_le_bytes().to_vec();
    bytes.extend(row(7, 1, 8, 2, 16));
    bytes.extend(row(0x01020304, 0, 14, 0, 8));
    bytes.extend([0xbb; 16]);
    bytes.extend(variable_data());
    let t = DatFile::from_raw_bytes(&bytes).unwrap();
    assert_eq!(t.rows, sample_table().rows);
    assert_eq!(t.variable_data, variable_data());
    assert!(DatFile::from_raw_bytes(&[1, 0, 0]).is_none());
    assert!(DatFile::from_raw_bytes(&[1, 0, 0, 0, 5, 5]).is_none());
    assert!(!raw_table_would_panic(&bytes));
    let mut zero = 0u32.to_le_bytes().to_vec();
    zero.extend([0xbb; 16]);
    assert!(raw_table_would_panic(&zero));
    let mut short = 3u32.to_le_bytes().to_vec();
    short.extend([1, 2]);
    short.extend([0xbb; 16]);
    assert!(raw_table_would_panic(&short));
}

#[test]
fn hex_dump_rows() {
    let t = DatFile { rows: vec![vec![0x00, 0xab], vec![0x10]], variable_data: vec![] };
    assert_eq!(t.hex_dump(), "00 ab\n10\n");
}

#[test]
fn schema_lookup_by_file_stem() {
    let schemas = SchemaCollection {
        tables: vec![
            DatTableSchema { valid_for: 2, name: "Mods".to_string(), columns: vec![] },
            DatTableSchema { valid_for: 3, name: "Mods".to_string(), columns: vec![column(None, "u32", false, false)] },
        ],
    };
    let found = schema_for_file(&schemas, "data/mods.datc64", 1).unwrap().unwrap();
    assert_eq!(found.valid_for, 3);
    let found = find_table_schema(&schemas, "mods", 2).unwrap();
    assert_eq!(found.valid_for, 2);
    assert!(find_table_schema(&schemas, "Mods", 1).is_none());
    assert!(schema_for_file(&schemas, "data/other.datc64", 1).unwrap().is_none());
    assert!(schema_for_file(&schemas, "", 1).is_none());
}

#[test]
fn unreadable_strings_are_found_first() {
    let t = sample_table();
    let schema = sample_schema();
    assert!(parse_table_checked(&t, &schema).unwrap().is_ok());
    assert!(t.strings_collect_is_readable(5));
    assert!(column_is_readable(&t, &schema.columns[2], 5));

    // The second row's string now points at an unpaired surrogate.
    let mut bad = sample_table();
    bad.variable_data = vec![0x68, 0, 0x69, 0, 0, 0, 0x00, 0xd8, 1, 0, 2, 0];
    assert!(!bad.strings_collect_is_readable(5));
    assert!(!column_is_readable(&bad, &schema.columns[2], 5));
    assert!(parse_table_checked(&bad, &schema).is_none());
    // A string column whose pointers are all out of bounds decodes nothing.
    let mut far = sample_table();
    far.rows = vec![row(7, 1, 99, 2, 16), row(1, 0, 100, 0, 8)];
    assert!(far.strings_collect_is_readable(5));
    // Arrays of strings: the u16 array cells read as string pointers.
    assert!(t.string_arrays_collect_is_readable(13));
}

#[test]
fn wider_later_rows_are_read() {
    // Columns are read up to the first row's width; a later row may be wider.
    let t = DatFile {
        rows: vec![vec![1, 0, 0, 0], vec![2, 0, 0, 0, 9, 9]],
        variable_data: vec![],
    };
    let schema = DatTableSchema {
        valid_for: 1,
        name: "T".to_string(),
        columns: vec![column(Some("A"), "u32", false, false)],
    };
    let parsed = parse_table(&t, &schema).unwrap();
    assert_eq!(parsed[0].1, ColumnData::U32s(vec![1, 2]));
}
