use poe_data_tools::fs::steam::steam_folder_candidates;

#[test]
fn steam_search_order() {
    let found = steam_folder_candidates("/home/exile", "2").unwrap();
    assert_eq!(
        found,
        vec![
            "/home/exile/.local/share/Steam/steamapps/common/Path of Exile 2".to_string(),
            "/home/exile/Library/Application Support/Steam/steamapps/common/Path of Exile 2"
                .to_string(),
            "C:\\Program Files (x86)\\Grinding Gear Games/Path of Exile 2".to_string(),
            "/mnt/e/SteamLibrary/steamapps/common/Path of Exile 2".to_string(),
        ]
    );
    let first = steam_folder_candidates("/home/exile", "1").unwrap();
    assert_eq!(
        first[0],
        "/home/exile/.local/share/Steam/steamapps/common/Path of Exile"
    );
}

#[test]
fn steam_needs_a_major_patch() {
    assert!(steam_folder_candidates("/home/exile", "3").is_none());
    assert!(steam_folder_candidates("/home/exile", "4.1.0.2").is_none());
    assert!(steam_folder_candidates("/home/exile", "").is_none());
}
