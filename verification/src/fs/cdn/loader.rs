//! The decisions of loading one bundle file: the cached copy of this patch is read as it is,
//! since a patch's files never change; else the CDN is asked for the file's etag, and the first
//! copy in another patch's cache with that etag is copied over; else the file is downloaded.
//! [`load_step`] takes what the last action found out and gives the next action; the caller does
//! the disk and network work.
use vstd::prelude::*;
use super::downloader::etag_matches;

verus! {

/// Where the loading of a file stands.
pub enum LoadState {
    /// The primary cache is being searched for the file
    Searching,
    /// The file is not in the primary cache; the CDN's etag for it is awaited
    AwaitingEtag,
    /// The CDN's etag is known, and the fallback copies are being compared with it, from the one
    /// at `next` in search order
    Comparing { etag: String, next: usize },
}

/// What the last action found out.
pub enum LoadEvent {
    /// Whether the primary cache holds the file and its etag
    PrimarySearched(bool),
    /// The etag the CDN gives for the file
    EtagAnswered(String),
    /// The etag recorded beside the fallback copy asked for, where it could be read
    FallbackEtag(Option<String>),
}

/// What to do next.
#[derive(Clone, Copy, Debug, PartialEq, Eq, Structural)]
pub enum LoadAction {
    /// Read the file from the primary cache; done
    ReadPrimary,
    /// Ask the CDN for the file's etag
    AskEtag,
    /// Read the etag recorded beside the fallback copy at this position
    ReadFallbackEtag(usize),
    /// Copy the fallback copy at this position, and its etag, into the primary cache and read it;
    /// done
    CopyFallback(usize),
    /// Download the file into the primary cache, with the etag the download gives; done
    Download,
}

/// Model of a [`LoadState`].
pub enum LoadStateView {
    Searching,
    AwaitingEtag,
    Comparing { etag: Seq<char>, next: int },
}

/// Model of a [`LoadEvent`].
pub enum LoadEventView {
    PrimarySearched(bool),
    EtagAnswered(Seq<char>),
    FallbackEtag(Option<Seq<char>>),
}

impl View for LoadState {
    type V = LoadStateView;

    open spec fn view(&self) -> LoadStateView {
        match self {
            LoadState::Searching => LoadStateView::Searching,
            LoadState::AwaitingEtag => LoadStateView::AwaitingEtag,
            LoadState::Comparing { etag, next } => LoadStateView::Comparing {
                etag: etag@,
                next: *next as int,
            },
        }
    }
}

impl View for LoadEvent {
    type V = LoadEventView;

    open spec fn view(&self) -> LoadEventView {
        match self {
            LoadEvent::PrimarySearched(found) => LoadEventView::PrimarySearched(*found),
            LoadEvent::EtagAnswered(e) => LoadEventView::EtagAnswered(e@),
            LoadEvent::FallbackEtag(f) => LoadEventView::FallbackEtag(
                match f {
                    Some(e) => Some(e@),
                    None => None,
                },
            ),
        }
    }
}

/// The next state and action, with `fallbacks` fallback copies in search order; `None` where the
/// event is not one that the state waits for.
/// - A file found in the primary cache is read from there, with nothing asked of the CDN.
/// - Else the CDN is asked for the etag, and the fallback copies are compared with it one at a
///   time: the first whose etag matches is copied; once none is left, the file is downloaded.
pub open spec fn spec_load_step(state: LoadStateView, event: LoadEventView, fallbacks: int) -> Option<
    (LoadStateView, LoadAction),
> {
    match state {
        LoadStateView::Searching => match event {
            LoadEventView::PrimarySearched(found) => if found {
                Some((LoadStateView::Searching, LoadAction::ReadPrimary))
            } else {
                Some((LoadStateView::AwaitingEtag, LoadAction::AskEtag))
            },
            _ => None,
        },
        LoadStateView::AwaitingEtag => match event {
            LoadEventView::EtagAnswered(e) => Some(
                (
                    LoadStateView::Comparing { etag: e, next: 0 },
                    if fallbacks > 0 {
                        LoadAction::ReadFallbackEtag(0)
                    } else {
                        LoadAction::Download
                    },
                ),
            ),
            _ => None,
        },
        LoadStateView::Comparing { etag, next } => match event {
            LoadEventView::FallbackEtag(f) => if 0 <= next < fallbacks {
                if etag_matches(f, etag) {
                    Some((LoadStateView::Comparing { etag, next }, LoadAction::CopyFallback(next as usize)))
                } else if next + 1 < fallbacks {
                    Some(
                        (
                            LoadStateView::Comparing { etag, next: next + 1 },
                            LoadAction::ReadFallbackEtag((next + 1) as usize),
                        ),
                    )
                } else {
                    Some((LoadStateView::Comparing { etag, next: next + 1 }, LoadAction::Download))
                }
            } else {
                None
            },
            _ => None,
        },
    }
}

/// Takes what the last action found out of the file being loaded, and gives the next state and
/// action (`fallbacks` being the number of fallback copies found, in search order); `None` where
/// the event is not one that the state waits for.
pub fn load_step(state: LoadState, event: LoadEvent, fallbacks: usize) -> (r: Option<(LoadState, LoadAction)>)
    ensures
        match spec_load_step(state@, event@, fallbacks as int) {
            Some((s, a)) => r matches Some((s2, a2)) && s2@ == s && a2 == a,
            None => r is None,
        },
{
    match state {
        LoadState::Searching => match event {
            LoadEvent::PrimarySearched(found) => if found {
                Some((LoadState::Searching, LoadAction::ReadPrimary))
            } else {
                Some((LoadState::AwaitingEtag, LoadAction::AskEtag))
            },
            _ => None,
        },
        LoadState::AwaitingEtag => match event {
            LoadEvent::EtagAnswered(e) => {
                let action = if fallbacks > 0 {
                    LoadAction::ReadFallbackEtag(0)
                } else {
                    LoadAction::Download
                };
                Some((LoadState::Comparing { etag: e, next: 0 }, action))
            },
            _ => None,
        },
        LoadState::Comparing { etag, next } => match event {
            LoadEvent::FallbackEtag(f) => {
                if next >= fallbacks {
                    return None;
                }
                let matched = match &f {
                    Some(e) => crate::text::str_eq(e.as_str(), etag.as_str()),
                    None => false,
                };
                if matched {
                    Some((LoadState::Comparing { etag, next }, LoadAction::CopyFallback(next)))
                } else if next + 1 < fallbacks {
                    Some((LoadState::Comparing { etag, next: next + 1 }, LoadAction::ReadFallbackEtag(next + 1)))
                } else {
                    Some((LoadState::Comparing { etag, next: next + 1 }, LoadAction::Download))
                }
            },
            _ => None,
        },
    }
}

/// A file that the primary cache holds is read from there: nothing is asked of the CDN and
/// nothing is downloaded, however many fallback copies there are.
pub proof fn lemma_cached_file_read_without_download(fallbacks: int)
    ensures
        spec_load_step(LoadStateView::Searching, LoadEventView::PrimarySearched(true), fallbacks)
            == Some((LoadStateView::Searching, LoadAction::ReadPrimary)),
{
}

/// The file is downloaded only once the CDN's etag is known and every fallback copy has been
/// compared with it without a match: a download comes from a comparison of the last fallback, or
/// straight after the etag where there are no fallbacks.
pub proof fn lemma_download_after_all_fallbacks(state: LoadStateView, event: LoadEventView, fallbacks: int)
    requires
        spec_load_step(state, event, fallbacks) matches Some((_, a)) && a == LoadAction::Download,
    ensures
        match state {
            LoadStateView::AwaitingEtag => fallbacks <= 0,
            LoadStateView::Comparing { etag, next } => next == fallbacks - 1 && (event matches LoadEventView::FallbackEtag(f)
                && !etag_matches(f, etag)),
            LoadStateView::Searching => false,
        },
{
}

/// Where comparing the fallback copies from the one at `next` on ends, each fed the etag
/// recorded beside it (`fallback_etags`, in search order): the action that is not a request for
/// the next fallback's etag.
pub open spec fn compare_outcome(etag: Seq<char>, fallback_etags: Seq<Option<Seq<char>>>, next: int) -> LoadAction
    decreases fallback_etags.len() - next,
{
    if next < 0 || next >= fallback_etags.len() {
        LoadAction::Download
    } else {
        match spec_load_step(
            LoadStateView::Comparing { etag, next },
            LoadEventView::FallbackEtag(fallback_etags[next]),
            fallback_etags.len() as int,
        ) {
            Some((_, LoadAction::ReadFallbackEtag(_))) => compare_outcome(etag, fallback_etags, next + 1),
            Some((_, a)) => a,
            None => LoadAction::Download,
        }
    }
}

/// Comparing the fallback copies one at a time copies the first one whose recorded etag is the
/// CDN's, and downloads the file exactly where none is.
pub proof fn lemma_first_matching_fallback_copied(
    etag: Seq<char>,
    fallback_etags: Seq<Option<Seq<char>>>,
    next: int,
)
    requires
        0 <= next <= fallback_etags.len(),
        fallback_etags.len() <= usize::MAX,
    ensures
        match compare_outcome(etag, fallback_etags, next) {
            LoadAction::CopyFallback(i) => {
                &&& next <= i < fallback_etags.len()
                &&& etag_matches(fallback_etags[i as int], etag)
                &&& forall|j: int| next <= j < i ==> !etag_matches(#[trigger] fallback_etags[j], etag)
            },
            LoadAction::Download => forall|j: int|
                next <= j < fallback_etags.len() ==> !etag_matches(#[trigger] fallback_etags[j], etag),
            _ => false,
        },
    decreases fallback_etags.len() - next,
{
    if next < fallback_etags.len() {
        if !etag_matches(fallback_etags[next], etag) && next + 1 < fallback_etags.len() {
            lemma_first_matching_fallback_copied(etag, fallback_etags, next + 1);
        }
    }
}

} // verus!
