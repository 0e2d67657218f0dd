use poe_data_tools::translate::Parser;

#[test]
fn parser_by_extension() {
    assert_eq!(Parser::from_filename("metadata/a.arm", 1), Some(Parser::Arm));
    assert_eq!(Parser::from_filename("x/y/z.tst", 2), Some(Parser::Tst));
    assert_eq!(Parser::from_filename("foo.et", 1), Some(Parser::Et));
    assert_eq!(
        Parser::from_filename("art/graph.psg", 2),
        Some(Parser::Psg { version: 2 })
    );
}

#[test]
fn unknown_extensions_have_no_parser() {
    assert_eq!(Parser::from_filename("a.dds", 1), None);
    assert_eq!(Parser::from_filename("noextension", 1), None);
    assert_eq!(Parser::from_filename("data/mods.datc64", 1), None);
}
