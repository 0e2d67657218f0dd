use poe_data_tools::patch::Patch;

#[test]
fn parse_named_patches() {
    assert_eq!(Patch::parse("1"), Patch::One);
    assert_eq!(Patch::parse("2"), Patch::Two);
    assert_eq!(
        Patch::parse("3.25.0.1"),
        Patch::Specific("3.25.0.1".to_string())
    );
}

#[test]
fn patch_text_round_trip() {
    for text in ["1", "2", "3.4.0.12", "4.1.0", "12"] {
        assert_eq!(Patch::parse(text).as_str(), text);
    }
}

#[test]
fn from_str_matches_parse() {
    let p: Patch = "4.2.1".parse().unwrap();
    assert_eq!(p, Patch::Specific("4.2.1".to_string()));
}

#[test]
fn major_versions() {
    assert_eq!(Patch::One.major(), 1);
    assert_eq!(Patch::Two.major(), 2);
    assert_eq!(Patch::Specific("3.4.0.12".to_string()).major(), 1);
    assert_eq!(Patch::Specific("4.0.1".to_string()).major(), 2);
}
