use poe_data_tools::dat::schema_cache::{next_schema_action, SchemaAction, SchemaEvent};

#[test]
fn schema_cache_steps() {
    assert_eq!(
        next_schema_action(SchemaEvent::Cache { present: false }),
        SchemaAction::Download
    );
    assert_eq!(
        next_schema_action(SchemaEvent::Cache { present: true }),
        SchemaAction::CheckAge
    );
    assert_eq!(
        next_schema_action(SchemaEvent::Age { seconds: 3599 }),
        SchemaAction::UseCached
    );
    assert_eq!(
        next_schema_action(SchemaEvent::Age { seconds: 3600 }),
        SchemaAction::AskEtag
    );
    assert_eq!(
        next_schema_action(SchemaEvent::HeadStatus { code: 304 }),
        SchemaAction::UseCached
    );
    assert_eq!(
        next_schema_action(SchemaEvent::HeadStatus { code: 200 }),
        SchemaAction::Download
    );
}
