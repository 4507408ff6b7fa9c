use omnibrowser_core::adblock::{AdblockMatcher, CefRequestHandler, RustAdblockMatcher};

#[test]
fn test_adblock_matcher() {
    let matcher = RustAdblockMatcher::new();
    assert!(matcher.should_block("https://doubleclick.net/ads", "script"));
    assert!(!matcher.should_block("https://example.com/page", "document"));
}

#[test]
fn blocked_url_of_other_type_passes() {
    let matcher = RustAdblockMatcher::new();
    assert!(!matcher.should_block("https://doubleclick.net/ads", "document"));
    assert!(matcher.should_block("https://example.com/x?utm_source=a", "image"));
    assert!(!matcher.should_block("https://example.com/page", "xhr"));
}

#[test]
fn filters_add_domains_and_patterns() {
    let mut matcher = RustAdblockMatcher::new();
    assert!(!matcher.should_block("https://tracker.example/pixel", "image"));
    AdblockMatcher::update_filters(
        &mut matcher,
        vec!["||||tracker.example/path".to_string(), "banner*".to_string(), "plain".to_string(), "||/x".to_string()],
    );
    assert!(matcher.should_block("https://tracker.example/pixel", "image"));
    assert!(matcher.should_block("https://site.test/banner*.png", "image"));
    assert!(!matcher.should_block("https://site.test/plain", "image"));
}

#[test]
fn handler_respects_switch() {
    let on = CefRequestHandler::new(true);
    let off = CefRequestHandler::new(false);
    assert!(on.on_before_resource_load("https://doubleclick.net/ads", "script"));
    assert!(!off.on_before_resource_load("https://doubleclick.net/ads", "script"));
}
