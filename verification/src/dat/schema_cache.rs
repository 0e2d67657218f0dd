//! When the dat-schema file kept in the cache folder can be used as it is, and when it has to be
//! checked against the server or downloaded again. The caller does the file and network work and
//! reports what it found; each step answers with what to do next.
use vstd::prelude::*;

verus! {

/// What the caller found out.
#[derive(Debug, Clone, Copy, PartialEq, Eq, Structural)]
pub enum SchemaEvent {
    /// Whether the cached schema and its etag file are both there
    Cache { present: bool },
    /// How many whole seconds ago the cached schema was last written
    Age { seconds: u64 },
    /// The status the server answered to a request carrying the cached etag
    HeadStatus { code: u16 },
}

/// What the caller does next.
#[derive(Debug, Clone, Copy, PartialEq, Eq, Structural)]
pub enum SchemaAction {
    /// Find out how old the cached schema is
    CheckAge,
    /// Read the cached schema
    UseCached,
    /// Ask the server whether the cached etag still holds
    AskEtag,
    /// Download the schema and its etag into the cache
    Download,
}

/// How long a cached schema is used without asking the server, in seconds.
pub const SCHEMA_MAX_AGE_SECS: u64 = 3600;

/// The status with which the server says that the cached copy is still current.
pub const NOT_MODIFIED: u16 = 304;

/// The answer to each event: with no cached copy, download; a copy younger than an hour is used;
/// an older one is used only where the server says it is not modified.
pub open spec fn schema_step(event: SchemaEvent) -> SchemaAction {
    match event {
        SchemaEvent::Cache { present } => if present {
            SchemaAction::CheckAge
        } else {
            SchemaAction::Download
        },
        SchemaEvent::Age { seconds } => if seconds < SCHEMA_MAX_AGE_SECS {
            SchemaAction::UseCached
        } else {
            SchemaAction::AskEtag
        },
        SchemaEvent::HeadStatus { code } => if code == NOT_MODIFIED {
            SchemaAction::UseCached
        } else {
            SchemaAction::Download
        },
    }
}

/// What to do after `event`.
pub fn next_schema_action(event: SchemaEvent) -> (r: SchemaAction)
    ensures
        r == schema_step(event),
{
    match event {
        SchemaEvent::Cache { present } => if present {
            SchemaAction::CheckAge
        } else {
            SchemaAction::Download
        },
        SchemaEvent::Age { seconds } => if seconds < SCHEMA_MAX_AGE_SECS {
            SchemaAction::UseCached
        } else {
            SchemaAction::AskEtag
        },
        SchemaEvent::HeadStatus { code } => if code == NOT_MODIFIED {
            SchemaAction::UseCached
        } else {
            SchemaAction::Download
        },
    }
}

} // verus!
