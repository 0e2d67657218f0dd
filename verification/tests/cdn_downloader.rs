use poe_data_tools::fs::cdn::downloader::{
    cached_url_is_fresh, cdn_address, first_cdn_url, first_matching_etag, is_known_version,
    parse_cdn_url, parse_response, CDNError,
    CdnAddress,
};

fn utf16(s: &str) -> Vec<u8> {
    s.encode_utf16().flat_map(|u| u.to_le_bytes()).collect()
}

fn response(strings: &[&str]) -> Vec<u8> {
    let mut b = vec![strings.len() as u8];
    b.extend([0u8; 33]);
    for s in strings {
        let units = utf16(s);
        b.push((units.len() / 2) as u8);
        b.extend(units);
    }
    b
}

#[test]
fn latest_versions_ask_the_patch_server() {
    match cdn_address("1") {
        CdnAddress::Latest { host, request } => {
            assert_eq!(host, "patch.pathofexile.com:12995");
            assert_eq!(request, vec![1, 6]);
        }
        CdnAddress::Patch(_) => panic!("expected the patch server"),
    }
    match cdn_address("2") {
        CdnAddress::Latest { host, request } => {
            assert_eq!(host, "patch.pathofexile2.com:13060");
            assert_eq!(request, vec![1, 7]);
        }
        CdnAddress::Patch(_) => panic!("expected the patch server"),
    }
}

#[test]
fn specific_patches_have_fixed_urls() {
    match cdn_address("3.25.1.2") {
        CdnAddress::Patch(url) => assert_eq!(url, "https://patch.poecdn.com/3.25.1.2/"),
        CdnAddress::Latest { .. } => panic!("expected a patch URL"),
    }
    match cdn_address("4.1.0") {
        CdnAddress::Patch(url) => assert_eq!(url, "https://patch-poe2.poecdn.com/4.1.0/"),
        CdnAddress::Latest { .. } => panic!("expected a patch URL"),
    }
    assert_eq!(
        parse_cdn_url("https://patch.poecdn.com/3.25.1.2/").unwrap(),
        "https://patch.poecdn.com/3.25.1.2/"
    );
    // The text is the URL as the url crate writes it.
    assert_eq!(parse_cdn_url("HTTPS://Patch.PoeCDN.com").unwrap(), "https://patch.poecdn.com/");
    assert_eq!(parse_cdn_url("not a url").err(), Some(CDNError::NoUrls));
}

#[test]
fn patch_server_response() {
    let b = response(&["https://a.example/x/", "https://b.example/y/"]);
    let strings = parse_response(&b).unwrap();
    assert_eq!(strings, vec!["https://a.example/x/", "https://b.example/y/"]);
    let (i, url) = first_cdn_url(&strings).unwrap();
    assert_eq!(i, 0);
    assert_eq!(url, "https://a.example/x/");
}

#[test]
fn malformed_responses() {
    assert_eq!(parse_response(&[1, 2, 3]).err(), Some(CDNError::NoUrls));
    let mut b = response(&["abc"]);
    b.pop();
    assert_eq!(parse_response(&b).err(), Some(CDNError::NoUrls));
    let mut b = response(&[]);
    b[0] = 1;
    assert_eq!(parse_response(&b).err(), Some(CDNError::NoUrls));
    // An unpaired surrogate
    let mut b = vec![1u8];
    b.extend([0u8; 33]);
    b.extend([1, 0x00, 0xd8]);
    assert_eq!(parse_response(&b).err(), Some(CDNError::NoUrls));
}

#[test]
fn first_url_skips_invalid_strings() {
    let strings = vec!["nope".to_string(), "https://c.example/".to_string()];
    let (i, url) = first_cdn_url(&strings).unwrap();
    assert_eq!(i, 1);
    assert_eq!(url, "https://c.example/");
    assert_eq!(first_cdn_url(&vec!["x".to_string()]).err(), Some(CDNError::NoUrls));
}

#[test]
fn matching_etags() {
    let etags = vec![None, Some("\"abc\"".to_string()), Some("\"def\"".to_string())];
    assert_eq!(first_matching_etag(&etags, "\"def\""), Some(2));
    assert_eq!(first_matching_etag(&etags, "\"xyz\""), None);
}

#[test]
fn error_messages() {
    assert_eq!(CDNError::NoEtag.message(), "response has no etag header");
    assert_eq!(CDNError::BadEtag.message(), "response contains invalid etag header");
    assert_eq!(CDNError::NoUrls.message(), "CDN provided no valid URLs");
}

#[test]
fn known_versions_and_fresh_urls() {
    assert!(is_known_version("1"));
    assert!(is_known_version("2"));
    assert!(is_known_version("3.25.1.2"));
    assert!(is_known_version("4.1.0.11"));
    assert!(!is_known_version("5.0"));
    assert!(!is_known_version("3"));
    assert!(!is_known_version(""));
    assert!(cached_url_is_fresh(0));
    assert!(cached_url_is_fresh(3599));
    assert!(!cached_url_is_fresh(3600));
}
