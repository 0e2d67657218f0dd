use poe_data_tools::dat::parser::{plain_column, string, JsonItem, PlainValue};
use poe_data_tools::dat::schema::ColumnSchema;

fn column(ty: &str, array: bool, interval: bool) -> ColumnSchema {
    ColumnSchema {
        name: None,
        description: None,
        array,
        column_type: ty.to_string(),
        unique: false,
        localized: false,
        references: None,
        until: None,
        file: None,
        files: None,
        interval,
    }
}

fn utf16z(s: &str) -> Vec<u8> {
    let mut out = Vec::new();
    for u in s.encode_utf16() {
        out.extend_from_slice(&u.to_le_bytes());
    }
    out.extend_from_slice(&[0, 0]);
    out
}

fn u64le(v: u64) -> Vec<u8> {
    v.to_le_bytes().to_vec()
}

#[test]
fn numbers_and_bools() {
    let vs: Vec<u8> = vec![];
    let row = [1u8, 0, 0, 0, 0xff, 0xff, 7];
    assert_eq!(
        plain_column(&column("u32", false, false), &vs, &row, 0),
        Some((PlainValue::One(JsonItem::Int(1)), 4))
    );
    assert_eq!(
        plain_column(&column("i16", false, false), &vs, &row, 4),
        Some((PlainValue::One(JsonItem::Int(-1)), 6))
    );
    assert_eq!(
        plain_column(&column("u16", false, false), &vs, &row, 4),
        Some((PlainValue::One(JsonItem::Int(0xffff)), 6))
    );
    assert_eq!(
        plain_column(&column("i32", false, false), &vs, &[0xfe, 0xff, 0xff, 0xff], 0),
        Some((PlainValue::One(JsonItem::Int(-2)), 4))
    );
    let bits = 1.5f32.to_bits().to_le_bytes();
    assert_eq!(
        plain_column(&column("f32", false, false), &vs, &bits, 0),
        Some((PlainValue::One(JsonItem::F32Bits(1.5f32.to_bits())), 4))
    );
    let bools = [0u8, 1, 2, 3];
    let expect = |i: usize| match i {
        0 => JsonItem::Bool(false),
        1 => JsonItem::Bool(true),
        2 => JsonItem::Bool(false),
        _ => JsonItem::Null,
    };
    for i in 0..4 {
        assert_eq!(
            plain_column(&column("bool", false, false), &vs, &bools, i),
            Some((PlainValue::One(expect(i)), i + 1))
        );
    }
    // Too few bytes left, and a type that is not plain.
    assert_eq!(plain_column(&column("u32", false, false), &vs, &row, 4), None);
    assert_eq!(plain_column(&column("foreignrow", false, false), &vs, &row, 0), None);
    // An "array" item reads nothing and is null.
    assert_eq!(
        plain_column(&column("array", false, false), &vs, &row, 3),
        Some((PlainValue::One(JsonItem::Null), 3))
    );
}

#[test]
fn strings_from_the_variable_section() {
    let mut vs = utf16z("hi");
    vs.extend(utf16z("there"));
    // Offsets count from 8; "there" starts at byte 6 of the section.
    let row = [u64le(8), u64le(14), u64le(7), u64le(8 + vs.len() as u64)].concat();
    assert_eq!(string(&vs, &row, 0), Some((Some("hi".to_string()), 8)));
    assert_eq!(string(&vs, &row, 8), Some((Some("there".to_string()), 16)));
    assert_eq!(string(&vs, &row, 16), Some((None, 24)));
    assert_eq!(string(&vs, &row, 24), Some((None, 32)));
    assert_eq!(string(&vs, &row, 28), None);
    assert_eq!(
        plain_column(&column("string", false, false), &vs, &row, 8),
        Some((PlainValue::One(JsonItem::Text("there".to_string())), 16))
    );
    assert_eq!(
        plain_column(&column("string", false, false), &vs, &row, 16),
        Some((PlainValue::One(JsonItem::Null), 24))
    );
}

#[test]
fn arrays_and_intervals() {
    // Variable section: three u16 values.
    let vs = vec![1u8, 0, 2, 0, 3, 0];
    let row = [u64le(2), u64le(10), u64le(3), u64le(40)].concat();
    assert_eq!(
        plain_column(&column("u16", true, false), &vs, &row, 0),
        Some((
            PlainValue::Many(vec![JsonItem::Int(2), JsonItem::Int(3)]),
            16
        ))
    );
    // A pointer outside the section is null.
    assert_eq!(
        plain_column(&column("u16", true, false), &vs, &row, 16),
        Some((PlainValue::One(JsonItem::Null), 32))
    );
    // More items than the section holds.
    let long = [u64le(4), u64le(8)].concat();
    assert_eq!(plain_column(&column("u16", true, false), &vs, &long, 0), None);
    // An empty array of an unknown type is still an array.
    let empty = [u64le(0), u64le(8)].concat();
    assert_eq!(
        plain_column(&column("weird", true, false), &vs, &empty, 0),
        Some((PlainValue::Many(vec![]), 16))
    );
    let pair = [5u8, 0, 0, 0, 0xff, 0xff, 0xff, 0xff];
    assert_eq!(
        plain_column(&column("i32", false, true), &vs, &pair, 0),
        Some((
            PlainValue::Many(vec![JsonItem::Int(5), JsonItem::Int(-1)]),
            8
        ))
    );
    assert_eq!(plain_column(&column("i32", false, true), &vs, &pair, 4), None);
}
