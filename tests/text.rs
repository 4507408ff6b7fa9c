use omnibrowser_core::adblock::extract_domain;
use omnibrowser_core::agent::extract_keywords;
use omnibrowser_core::extract;
use omnibrowser_core::page_extractor;
use omnibrowser_core::search::count_matches;
use omnibrowser_core::security::sanitize_string;
use omnibrowser_core::stability::parse_mem_total;

#[test]
fn domain_of_urls() {
    assert_eq!(extract_domain("https://example.com/path/x"), "example.com");
    assert_eq!(extract_domain("http://a.b"), "a.b");
    assert_eq!(extract_domain("example.com/x"), "example.com/x");
}

#[test]
fn counts_query_words_present() {
    assert_eq!(count_matches("hello world foo", "world  foo bar"), 2);
    assert_eq!(count_matches("abc", ""), 0);
    assert_eq!(count_matches("aaa", "a a"), 2);
}

#[test]
fn entities_decode_in_order() {
    assert_eq!(page_extractor::decode_html_entities("a &amp;lt; b &quot;q&quot; &#39;"), "a < b \"q\" '");
    assert_eq!(extract::decode_html_entities("&copy; 2024 &reg;&nbsp;x"), "\u{a9} 2024 \u{ae} x");
    assert_eq!(page_extractor::decode_html_entities("&copy;"), "&copy;");
}

#[test]
fn titles_from_html() {
    assert_eq!(
        page_extractor::extract_title("<html><title> Hi &amp; bye </title></html>"),
        Some("Hi & bye".to_string())
    );
    assert_eq!(page_extractor::extract_title("<h1>x</h1>"), None);
    assert_eq!(page_extractor::extract_title("<title>open"), None);
    assert_eq!(extract::extract_title("<h1 class=x> Head \n\n line </h1>"), Some("Head\nline".to_string()));
    assert_eq!(extract::extract_title("<title>A &copy;</title><h1>B</h1>"), Some("A \u{a9}".to_string()));
    assert_eq!(extract::extract_title("<p>none</p>"), None);
}

#[test]
fn readable_text_from_html() {
    let html = "<p>Hello <b>world</b></p><script>x()</script><style>a{}</style> end";
    assert_eq!(page_extractor::extract_clean_text(html), "Hello world end");
    assert_eq!(page_extractor::extract_clean_text("<script>never closed"), "never closed");
}

#[test]
fn clean_text_trims_lines() {
    assert_eq!(extract::clean_text("  a \n\n b  \r\n"), "a\nb");
    assert_eq!(extract::clean_text(""), "");
}

#[test]
fn sanitize_drops_controls_and_caps_bytes() {
    assert_eq!(sanitize_string("a\u{0}b\nc\u{7f}\t"), "ab\nc\t");
    let long = "\u{e9}".repeat(6000);
    let s = sanitize_string(&long);
    assert_eq!(s.len(), 10000);
    assert_eq!(s.chars().count(), 5000);
    let odd = format!("a{}", "\u{e9}".repeat(6000));
    assert_eq!(sanitize_string(&odd).len(), 9999);
}

#[test]
fn meminfo_total() {
    assert_eq!(parse_mem_total("MemTotal:       16384 kB\nMemFree: 1 kB\n"), Ok(16384 * 1024));
    assert_eq!(parse_mem_total("MemFree: 1 kB\nMemTotal: +2 kB"), Ok(2048));
    assert_eq!(parse_mem_total("MemTotal: x kB\n"), Err("Could not parse /proc/meminfo".to_string()));
    assert_eq!(parse_mem_total("MemTotal: 99999999999999999999 kB"), Err("Could not parse /proc/meminfo".to_string()));
}

#[test]
fn keywords_ignore_case() {
    let k = extract_keywords("Rust memory safety is key", "RUST gives MEMORY safety");
    assert_eq!(k, vec!["Rust".to_string(), "memory".to_string(), "safety".to_string()]);
    let many = extract_keywords("aaaa bbbb cccc dddd eeee ffff", "aaaa bbbb cccc dddd eeee ffff");
    assert_eq!(many.len(), 5);
}

#[test]
fn snippet_around_first_query_word() {
    let content = "The quick brown fox jumps over the lazy dog";
    assert_eq!(omnibrowser_core::search::extract_snippet(content, "FOX", 9), "...wn fox jumps...");
    assert_eq!(omnibrowser_core::search::extract_snippet(content, "zzz", 9), "The quick...");
    assert_eq!(omnibrowser_core::search::extract_snippet("short", "short", 100), "short");
}
