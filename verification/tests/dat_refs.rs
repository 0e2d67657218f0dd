use poe_data_tools::dat::refs::{create_parser, ref_column, Json};
use poe_data_tools::dat::schema::{ColumnSchema, References};

fn column(ty: &str, table: Option<&str>, array: bool, interval: bool) -> ColumnSchema {
    ColumnSchema {
        name: None,
        description: None,
        array,
        column_type: ty.to_string(),
        unique: false,
        localized: false,
        references: table.map(|t| References { table: t.to_string() }),
        until: None,
        file: None,
        files: None,
        interval,
    }
}

fn resolved() -> Vec<(String, Vec<Json>)> {
    vec![
        (
            "mods".to_string(),
            vec![
                Json::Text("A".to_string()),
                Json::Null,
                Json::Array(vec![Json::Int(1), Json::Text("x".to_string())]),
            ],
        ),
        ("kinds".to_string(), vec![Json::Null, Json::Text("One".to_string())]),
    ]
}

fn keyed(table: &str, key: &str, ids: Json) -> Json {
    Json::Object(vec![
        ("TableName".to_string(), Json::Text(table.to_string())),
        (key.to_string(), ids),
    ])
}

fn row_index(table: Option<&str>, n: u64) -> Json {
    let name = match table {
        Some(t) => Json::Text(t.to_string()),
        None => Json::Null,
    };
    Json::Object(vec![
        ("TableName".to_string(), name),
        ("RowIndex".to_string(), Json::UInt(n)),
    ])
}

fn bad_item(n: u64) -> Json {
    Json::Object(vec![("rowIndex".to_string(), Json::UInt(n))])
}

fn foreign(row: u64) -> Vec<u8> {
    let mut b = row.to_le_bytes().to_vec();
    b.extend([0u8; 8]);
    b
}

#[test]
fn scalar_references() {
    let col = column("foreignrow", Some("Mods"), false, false);
    let keys = resolved();
    let vs: Vec<u8> = vec![];
    assert_eq!(
        ref_column(&col, &vs, &keys, &foreign(0), 0),
        Some((keyed("Mods", "Id", Json::Text("A".to_string())), 16))
    );
    // A row whose key is null, and a row past the keys: the table name and the row index.
    assert_eq!(
        ref_column(&col, &vs, &keys, &foreign(1), 0),
        Some((row_index(Some("Mods"), 1), 16))
    );
    assert_eq!(
        ref_column(&col, &vs, &keys, &foreign(9), 0),
        Some((row_index(Some("Mods"), 9), 16))
    );
    // A table whose keys are not known.
    let other = column("foreignrow", Some("Stats"), false, false);
    assert_eq!(
        ref_column(&other, &vs, &keys, &foreign(0), 0),
        Some((row_index(Some("Stats"), 0), 16))
    );
    // A key of several parts stays a list under "Id".
    assert_eq!(
        ref_column(&col, &vs, &keys, &foreign(2), 0),
        Some((
            keyed(
                "Mods",
                "Id",
                Json::Array(vec![Json::Int(1), Json::Text("x".to_string())])
            ),
            16
        ))
    );
    // All 0xfe is a null index.
    assert_eq!(ref_column(&col, &vs, &keys, &[0xfe; 16], 0), Some((Json::Null, 16)));
    // No table named: a null table name and the row index.
    let plain = column("row", None, false, false);
    assert_eq!(
        ref_column(&plain, &vs, &keys, &3u64.to_le_bytes(), 0),
        Some((row_index(None, 3), 8))
    );
    let kinds = column("enumrow", Some("Kinds"), false, false);
    assert_eq!(
        ref_column(&kinds, &vs, &keys, &1u32.to_le_bytes(), 0),
        Some((keyed("Kinds", "Id", Json::Text("One".to_string())), 4))
    );
    // Too few bytes, and a type that is no reference.
    assert_eq!(ref_column(&col, &vs, &keys, &[0; 8], 0), None);
    assert_eq!(ref_column(&column("u32", None, false, false), &vs, &keys, &[0; 4], 0), None);
}

#[test]
fn array_references() {
    let col = column("row", Some("Mods"), true, false);
    let keys = resolved();
    let mut vs = 0u64.to_le_bytes().to_vec();
    vs.extend([0xfe; 8]);
    vs.extend(1u64.to_le_bytes());
    vs.extend(7u64.to_le_bytes());
    let mut row = 4u64.to_le_bytes().to_vec();
    row.extend(8u64.to_le_bytes());
    // A known key, a null index, a row whose key is null and a row past the keys.
    assert_eq!(
        ref_column(&col, &vs, &keys, &row, 0),
        Some((
            keyed(
                "Mods",
                "Ids",
                Json::Array(vec![
                    Json::Text("A".to_string()),
                    Json::Null,
                    bad_item(1),
                    bad_item(7),
                ])
            ),
            16
        ))
    );
    // The same array where the column names no table: the row indices.
    let bare = column("row", None, true, false);
    assert_eq!(
        ref_column(&bare, &vs, &keys, &row, 0),
        Some((
            Json::Object(vec![
                ("TableName".to_string(), Json::Null),
                (
                    "RowIndices".to_string(),
                    Json::Array(vec![Json::UInt(0), Json::Null, Json::UInt(1), Json::UInt(7)])
                ),
            ]),
            16
        ))
    );
    // An empty array, and a pointer outside the variable section.
    let mut empty = 0u64.to_le_bytes().to_vec();
    empty.extend(8u64.to_le_bytes());
    assert_eq!(ref_column(&col, &vs, &keys, &empty, 0), Some((Json::Array(vec![]), 16)));
    let mut far = 1u64.to_le_bytes().to_vec();
    far.extend(99u64.to_le_bytes());
    assert_eq!(ref_column(&col, &vs, &keys, &far, 0), Some((Json::Null, 16)));
    // An interval of two rows with no table.
    let pair = column("row", None, false, true);
    let mut two = 4u64.to_le_bytes().to_vec();
    two.extend(5u64.to_le_bytes());
    assert_eq!(
        ref_column(&pair, &vs, &keys, &two, 0),
        Some((
            Json::Object(vec![
                ("TableName".to_string(), Json::Null),
                (
                    "RowIndices".to_string(),
                    Json::Array(vec![Json::UInt(4), Json::UInt(5)])
                ),
            ]),
            16
        ))
    );
    // An interval into a table whose keys are known.
    let span = column("row", Some("Mods"), false, true);
    let mut ends = 0u64.to_le_bytes().to_vec();
    ends.extend(5u64.to_le_bytes());
    assert_eq!(
        ref_column(&span, &vs, &keys, &ends, 0),
        Some((
            keyed("Mods", "Ids", Json::Array(vec![Json::Text("A".to_string()), bad_item(5)])),
            16
        ))
    );
}

#[test]
fn whole_rows() {
    let keys = resolved();
    let vs: Vec<u8> = vec![];
    let cols = vec![
        column("u32", None, false, false),
        column("foreignrow", Some("Mods"), false, false),
        column("bool", None, false, false),
    ];
    let names: Vec<String> = vec!["A".to_string(), "B".to_string(), "C".to_string()];
    let mut row = 7u32.to_le_bytes().to_vec();
    row.extend(foreign(0));
    row.push(1);
    assert_eq!(
        create_parser(&keys, &vs, &cols, &names, &row),
        Json::Object(vec![
            ("A".to_string(), Json::Int(7)),
            ("B".to_string(), keyed("Mods", "Id", Json::Text("A".to_string()))),
            ("C".to_string(), Json::Bool(true)),
        ])
    );
    // A row cut short keeps the fields read before it; extra bytes are skipped.
    assert_eq!(
        create_parser(&keys, &vs, &cols, &names, &row[..10]),
        Json::Object(vec![("A".to_string(), Json::Int(7))])
    );
    let mut long = row.clone();
    long.extend([9, 9, 9]);
    assert_eq!(
        create_parser(&keys, &vs, &cols, &names, &long),
        create_parser(&keys, &vs, &cols, &names, &row)
    );
    // A name given twice keeps the later value; columns without a name are not read.
    let twice: Vec<String> = vec!["A".to_string(), "A".to_string()];
    let two = vec![column("u32", None, false, false), column("u32", None, false, false)];
    let mut bytes = 1u32.to_le_bytes().to_vec();
    bytes.extend(2u32.to_le_bytes());
    assert_eq!(
        create_parser(&keys, &vs, &two, &twice, &bytes),
        Json::Object(vec![("A".to_string(), Json::Int(2))])
    );
    assert_eq!(
        create_parser(&keys, &vs, &two, &names[..1].to_vec(), &bytes),
        Json::Object(vec![("A".to_string(), Json::Int(1))])
    );
}
