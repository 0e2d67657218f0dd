//! Where the CDN of a game version lives, and the patch server's answer naming it.
use vstd::prelude::*;
use crate::bytes::read_u16_le;
use crate::text::chars_of;
use crate::utf16::{decode_utf16, decode_utf16_units, le_units, string_from_chars};

verus! {

/// Failures of the CDN downloader.
#[derive(Debug, Clone, Copy, PartialEq, Eq, Structural)]
pub enum CDNError {
    NoEtag,
    BadEtag,
    NoUrls,
}

impl CDNError {
    /// What went wrong, in words.
    pub fn message(&self) -> (s: &'static str)
        ensures
            *self == CDNError::NoEtag ==> s@ == "response has no etag header"@,
            *self == CDNError::BadEtag ==> s@ == "response contains invalid etag header"@,
            *self == CDNError::NoUrls ==> s@ == "CDN provided no valid URLs"@,
    {
        match self {
            CDNError::NoEtag => "response has no etag header",
            CDNError::BadEtag => "response contains invalid etag header",
            CDNError::NoUrls => "CDN provided no valid URLs",
        }
    }
}

/// Where to find the CDN of a game version.
pub enum CdnAddress {
    /// Ask the patch server at `host` for the latest CDN, sending `request`
    Latest { host: String, request: Vec<u8> },
    /// The CDN of a specific patch, at this URL
    Patch(String),
}

/// Mathematical model of a [`CdnAddress`].
pub enum CdnAddressView {
    Latest { host: Seq<char>, request: Seq<u8> },
    Patch(Seq<char>),
}

impl View for CdnAddress {
    type V = CdnAddressView;

    open spec fn view(&self) -> CdnAddressView {
        match self {
            CdnAddress::Latest { host, request } => CdnAddressView::Latest {
                host: host@,
                request: request@,
            },
            CdnAddress::Patch(url) => CdnAddressView::Patch(url@),
        }
    }
}

/// Whether `s` begins with `prefix`.
pub open spec fn starts_with(s: Seq<char>, prefix: Seq<char>) -> bool {
    prefix.len() <= s.len() && s.take(prefix.len() as int) == prefix
}

/// The versions the CDN is known for: "1" and "2" (the latest of each game), and specific
/// patches "3.*" (PoE 1) and "4.*" (PoE 2).
pub open spec fn known_version(v: Seq<char>) -> bool {
    v == "1"@ || v == "2"@ || starts_with(v, "3."@) || starts_with(v, "4."@)
}

/// Where the CDN of version `v` is.
pub open spec fn spec_cdn_address(v: Seq<char>) -> CdnAddressView {
    if v == "1"@ {
        CdnAddressView::Latest { host: "patch.pathofexile.com:12995"@, request: seq![1u8, 6u8] }
    } else if v == "2"@ {
        CdnAddressView::Latest { host: "patch.pathofexile2.com:13060"@, request: seq![1u8, 7u8] }
    } else if starts_with(v, "3."@) {
        CdnAddressView::Patch("https://patch.poecdn.com/"@ + v + "/"@)
    } else {
        CdnAddressView::Patch("https://patch-poe2.poecdn.com/"@ + v + "/"@)
    }
}

/// Whether `s` begins with `prefix`.
fn str_starts_with(s: &str, prefix: &str) -> (r: bool)
    ensures
        r == starts_with(s@, prefix@),
{
    let n = prefix.unicode_len();
    if n > s.unicode_len() {
        return false;
    }
    let mut i: usize = 0;
    while i < n
        invariant
            n == prefix@.len(),
            n <= s@.len(),
            i <= n,
            forall|j: int| 0 <= j < i ==> s@[j] == prefix@[j],
        decreases n - i,
    {
        if s.get_char(i) != prefix.get_char(i) {
            assert(s@.take(n as int)[i as int] != prefix@[i as int]);
            return false;
        }
        i = i + 1;
    }
    assert(s@.take(n as int) =~= prefix@);
    true
}

/// `a`, `b` and `c` joined.
fn concat3(a: &str, b: &str, c: &str) -> (r: String)
    ensures
        r@ == a@ + b@ + c@,
{
    let mut chars = chars_of(a);
    let mut rest = chars_of(b);
    chars.append(&mut rest);
    let mut tail = chars_of(c);
    chars.append(&mut tail);
    string_from_chars(chars.as_slice())
}

/// How long a CDN address kept in the cache folder is used without asking again, in seconds.
pub const CDN_URL_MAX_AGE_SECS: u64 = 3600;

/// Whether a cached CDN address written `age_secs` seconds ago is still used.
pub fn cached_url_is_fresh(age_secs: u64) -> (r: bool)
    ensures
        r == (age_secs < CDN_URL_MAX_AGE_SECS),
{
    age_secs < CDN_URL_MAX_AGE_SECS
}

/// Whether a CDN address is known for the version: "1", "2", or a patch version of either
/// game.
pub fn is_known_version(version: &str) -> (r: bool)
    ensures
        r == known_version(version@),
{
    crate::text::str_eq(version, "1") || crate::text::str_eq(version, "2") || str_starts_with(
        version,
        "3.",
    ) || str_starts_with(version, "4.")
}

/// Where the CDN of the given game version is. Any other version is invalid.
pub fn cdn_address(version: &str) -> (r: CdnAddress)
    requires
        known_version(version@),
    ensures
        r@ == spec_cdn_address(version@),
{
    if crate::text::str_eq(version, "1") {
        let mut request: Vec<u8> = Vec::new();
        request.push(1);
        request.push(6);
        assert(request@ =~= seq![1u8, 6u8]);
        CdnAddress::Latest { host: "patch.pathofexile.com:12995".to_owned(), request }
    } else if crate::text::str_eq(version, "2") {
        let mut request: Vec<u8> = Vec::new();
        request.push(1);
        request.push(7);
        assert(request@ =~= seq![1u8, 7u8]);
        CdnAddress::Latest { host: "patch.pathofexile2.com:13060".to_owned(), request }
    } else if str_starts_with(version, "3.") {
        CdnAddress::Patch(concat3("https://patch.poecdn.com/", version, "/"))
    } else {
        CdnAddress::Patch(concat3("https://patch-poe2.poecdn.com/", version, "/"))
    }
}

/// Reading the patch server's answer.
pub enum ResponseStep {
    /// The strings the answer lists
    Done(Seq<Seq<char>>),
    /// The answer is malformed
    Fail,
    /// A string length of 128 or more, whose doubling overflows a byte: reading panics there
    Abort,
}

/// `count` length-prefixed UTF-16LE strings from `pos`: each a length byte `l`, then `2 * l`
/// bytes.
pub open spec fn sp_strings(b: Seq<u8>, pos: int, count: nat) -> ResponseStep
    decreases count,
{
    if count == 0 {
        ResponseStep::Done(Seq::empty())
    } else if pos < 0 || pos >= b.len() {
        ResponseStep::Fail
    } else if b[pos] >= 128 {
        ResponseStep::Abort
    } else {
        let n = 2 * b[pos];
        if pos + 1 + n > b.len() {
            ResponseStep::Fail
        } else {
            match decode_utf16(le_units(b.subrange(pos + 1, pos + 1 + n))) {
                None => ResponseStep::Fail,
                Some(s) => match sp_strings(b, pos + 1 + n, (count - 1) as nat) {
                    ResponseStep::Done(rest) => ResponseStep::Done(seq![s] + rest),
                    other => other,
                },
            }
        }
    }
}

/// The patch server's answer: a count byte and 33 more bytes, then that many strings.
pub open spec fn sp_response(b: Seq<u8>) -> ResponseStep {
    if b.len() < 34 {
        ResponseStep::Fail
    } else {
        sp_strings(b, 34, b[0] as nat)
    }
}

/// `prefix` before the strings of a reading, if it succeeds.
pub open spec fn after_prefix(prefix: Seq<Seq<char>>, st: ResponseStep) -> ResponseStep {
    match st {
        ResponseStep::Done(rest) => ResponseStep::Done(prefix + rest),
        other => other,
    }
}

/// The code units of `bytes` as consecutive little-endian pairs.
fn le_units_of(bytes: &[u8]) -> (r: Vec<u16>)
    ensures
        r@ == le_units(bytes@),
{
    let n = bytes.len() / 2;
    let mut out: Vec<u16> = Vec::new();
    let mut i: usize = 0;
    while i < n
        invariant
            n == bytes@.len() / 2,
            bytes@.len() == bytes.len(),
            i <= n,
            out@ == le_units(bytes@).take(i as int),
        decreases n - i,
    {
        let u = read_u16_le(bytes, 2 * i);
        out.push(u);
        i = i + 1;
        assert(out@ =~= le_units(bytes@).take(i as int));
    }
    assert(le_units(bytes@).take(n as int) =~= le_units(bytes@));
    out
}

/// What reading the patch server's answer gives: its strings, a malformed answer, or a length
/// whose doubling overflows.
pub enum ResponseRead {
    Strings(Vec<String>),
    Malformed,
    Overflow,
}

/// Reads the patch server's answer, telling a malformed answer from one on which reading the
/// lengths overflows.
pub fn read_response(bytes: &[u8]) -> (r: ResponseRead)
    ensures
        match sp_response(bytes@) {
            ResponseStep::Done(v) => r matches ResponseRead::Strings(w) && w.deep_view() == v,
            ResponseStep::Fail => r is Malformed,
            ResponseStep::Abort => r is Overflow,
        },
{
    if bytes.len() < 34 {
        return ResponseRead::Malformed;
    }
    let count = bytes[0];
    let mut out: Vec<String> = Vec::new();
    let mut pos: usize = 34;
    let mut k: u8 = 0;
    assert(after_prefix(Seq::empty(), sp_strings(bytes@, 34, count as nat)) == sp_strings(
        bytes@,
        34,
        count as nat,
    )) by {
        match sp_strings(bytes@, 34, count as nat) {
            ResponseStep::Done(rest) => {
                assert(Seq::<Seq<char>>::empty() + rest =~= rest);
            },
            _ => {},
        }
    }
    assert(out.deep_view() =~= Seq::<Seq<char>>::empty());
    while k < count
        invariant
            k <= count,
            count == bytes@[0],
            bytes@.len() >= 34,
            34 <= pos <= bytes@.len(),
            sp_response(bytes@) == after_prefix(
                out.deep_view(),
                sp_strings(bytes@, pos as int, (count - k) as nat),
            ),
        decreases count - k,
    {
        let ghost rest_count = (count - k) as nat;
        if pos >= bytes.len() {
            return ResponseRead::Malformed;
        }
        let l = bytes[pos];
        if l >= 128 {
            return ResponseRead::Overflow;
        }
        let n = 2 * (l as usize);
        if n > bytes.len() - pos - 1 {
            return ResponseRead::Malformed;
        }
        let units = le_units_of(&bytes[pos + 1..pos + 1 + n]);
        match decode_utf16_units(units.as_slice()) {
            None => {
                return ResponseRead::Malformed;
            },
            Some(chars) => {
                let s = string_from_chars(chars.as_slice());
                let ghost before = out.deep_view();
                out.push(s);
                proof {
                    assert(out.deep_view() =~= before.push(s@));
                    match sp_strings(bytes@, pos + 1 + n, (rest_count - 1) as nat) {
                        ResponseStep::Done(rest) => {
                            assert(before + (seq![s@] + rest) =~= before.push(s@) + rest);
                        },
                        _ => {},
                    }
                }
                pos = pos + 1 + n;
                k = k + 1;
            },
        }
    }
    assert(out.deep_view() + Seq::<Seq<char>>::empty() =~= out.deep_view());
    ResponseRead::Strings(out)
}

/// Whether reading the patch server's answer overflows on a length of 128 or more.
pub fn response_overflows(bytes: &[u8]) -> (r: bool)
    ensures
        r == (sp_response(bytes@) is Abort),
{
    match read_response(bytes) {
        ResponseRead::Overflow => true,
        _ => false,
    }
}

/// Reads the list of CDN URLs that the patch server answers with.
pub fn parse_response(bytes: &[u8]) -> (r: Result<Vec<String>, CDNError>)
    requires
        !(sp_response(bytes@) is Abort),
    ensures
        match sp_response(bytes@) {
            ResponseStep::Done(v) => r matches Ok(w) && w.deep_view() == v,
            _ => r == Err::<Vec<String>, CDNError>(CDNError::NoUrls),
        },
{
    match read_response(bytes) {
        ResponseRead::Strings(v) => Ok(v),
        _ => Err(CDNError::NoUrls),
    }
}

/// The text of the URL that `url::Url::parse` makes of `s` (its serialization, as
/// `Url::as_str` gives it), or `None` where the text does not parse.
pub uninterp spec fn url_serialization(s: Seq<char>) -> Option<Seq<char>>;

/// Calls `url::Url::parse` and keeps the parsed URL's text. Whether it parses, and the text it
/// gives, depend on the input alone, named by [`url_serialization`]; the URL grammar itself is
/// not stated here.
#[verifier::external_body]
fn parse_url(s: &str) -> (r: Option<String>)
    ensures
        match r {
            Some(t) => url_serialization(s@) == Some(t@),
            None => url_serialization(s@) is None,
        },
{
    url::Url::parse(s).ok().map(|u| u.as_str().to_string())
}

/// Whether `url::Url::parse` accepts the text.
pub open spec fn url_parses(s: Seq<char>) -> bool {
    url_serialization(s) is Some
}

/// The URL of a specific patch's CDN, parsed: its text as the `url` crate writes it.
pub fn parse_cdn_url(address: &str) -> (r: Result<String, CDNError>)
    ensures
        match url_serialization(address@) {
            Some(t) => r matches Ok(u) && u@ == t,
            None => r == Err::<String, CDNError>(CDNError::NoUrls),
        },
{
    match parse_url(address) {
        Some(u) => Ok(u),
        None => Err(CDNError::NoUrls),
    }
}

/// The first of the patch server's strings that parses as a URL, with its position and its text
/// as the `url` crate writes it; `NoUrls` when none does.
pub fn first_cdn_url(strings: &Vec<String>) -> (r: Result<(usize, String), CDNError>)
    ensures
        match r {
            Ok((i, u)) => i < strings@.len() && url_serialization(strings@[i as int]@) == Some(u@)
                && forall|j: int| 0 <= j < i ==> !url_parses(#[trigger] strings@[j]@),
            Err(e) => e == CDNError::NoUrls && forall|j: int|
                0 <= j < strings@.len() ==> !url_parses(#[trigger] strings@[j]@),
        },
{
    let mut i: usize = 0;
    while i < strings.len()
        invariant
            i <= strings@.len(),
            forall|j: int| 0 <= j < i ==> !url_parses(#[trigger] strings@[j]@),
        decreases strings@.len() - i,
    {
        match parse_url(strings[i].as_str()) {
            Some(u) => {
                return Ok((i, u));
            },
            None => {},
        }
        i = i + 1;
    }
    Err(CDNError::NoUrls)
}

/// Whether a fallback's etag, where it could be read, is the server's.
pub open spec fn etag_matches(fallback: Option<Seq<char>>, etag: Seq<char>) -> bool {
    fallback matches Some(e) && e == etag
}

/// The first fallback whose cached etag is the server's current etag: its file can be copied
/// instead of downloaded. `fallback_etags` holds, per fallback in search order, the etag file's
/// contents where it could be read.
pub fn first_matching_etag(fallback_etags: &Vec<Option<String>>, etag: &str) -> (r: Option<usize>)
    ensures
        match r {
            Some(i) => i < fallback_etags@.len() && etag_matches(
                fallback_etags@[i as int].deep_view(),
                etag@,
            ) && forall|j: int|
                0 <= j < i ==> !etag_matches(#[trigger] fallback_etags@[j].deep_view(), etag@),
            None => forall|j: int|
                0 <= j < fallback_etags@.len() ==> !etag_matches(
                    #[trigger] fallback_etags@[j].deep_view(),
                    etag@,
                ),
        },
{
    let mut i: usize = 0;
    while i < fallback_etags.len()
        invariant
            i <= fallback_etags@.len(),
            forall|j: int|
                0 <= j < i ==> !etag_matches(#[trigger] fallback_etags@[j].deep_view(), etag@),
        decreases fallback_etags@.len() - i,
    {
        match &fallback_etags[i] {
            Some(e) => {
                if crate::text::str_eq(e.as_str(), etag) {
                    return Some(i);
                }
            },
            None => {},
        }
        i = i + 1;
    }
    None
}

} // verus!
