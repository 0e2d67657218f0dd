use poe_data_tools::fs::cdn::loader::{load_step, LoadAction, LoadEvent, LoadState};

fn comparing(etag: &str, next: usize) -> LoadState {
    LoadState::Comparing { etag: etag.to_string(), next }
}

fn etag(e: Option<&str>) -> LoadEvent {
    LoadEvent::FallbackEtag(e.map(|s| s.to_string()))
}

#[test]
fn cached_file_is_read_without_download() {
    let (state, action) = load_step(LoadState::Searching, LoadEvent::PrimarySearched(true), 3).unwrap();
    assert!(matches!(state, LoadState::Searching));
    assert_eq!(action, LoadAction::ReadPrimary);
}

#[test]
fn missing_file_asks_for_etag() {
    let (state, action) = load_step(LoadState::Searching, LoadEvent::PrimarySearched(false), 2).unwrap();
    assert!(matches!(state, LoadState::AwaitingEtag));
    assert_eq!(action, LoadAction::AskEtag);
    let (state, action) = load_step(state, LoadEvent::EtagAnswered("abc".to_string()), 2).unwrap();
    assert!(matches!(&state, LoadState::Comparing { etag, next: 0 } if etag == "abc"));
    assert_eq!(action, LoadAction::ReadFallbackEtag(0));
    // No fallbacks: download straight away.
    let (_, action) = load_step(LoadState::AwaitingEtag, LoadEvent::EtagAnswered("abc".to_string()), 0).unwrap();
    assert_eq!(action, LoadAction::Download);
}

#[test]
fn fallbacks_compared_in_order() {
    // The first fallback's etag cannot be read, the second differs, the third matches.
    let (state, action) = load_step(comparing("abc", 0), etag(None), 3).unwrap();
    assert_eq!(action, LoadAction::ReadFallbackEtag(1));
    let (state, action) = load_step(state, etag(Some("old")), 3).unwrap();
    assert_eq!(action, LoadAction::ReadFallbackEtag(2));
    let (_, action) = load_step(state, etag(Some("abc")), 3).unwrap();
    assert_eq!(action, LoadAction::CopyFallback(2));
    // No match in the last fallback: download.
    let (_, action) = load_step(comparing("abc", 1), etag(Some("xyz")), 2).unwrap();
    assert_eq!(action, LoadAction::Download);
}

#[test]
fn events_out_of_turn_are_refused() {
    assert!(load_step(LoadState::Searching, etag(None), 1).is_none());
    assert!(load_step(LoadState::AwaitingEtag, LoadEvent::PrimarySearched(true), 1).is_none());
    assert!(load_step(comparing("abc", 2), etag(Some("abc")), 2).is_none());
}
