use minitools::shortener::UrlShortener;

#[test]
fn shorten_then_resolve() {
    let mut shortener = UrlShortener::new("http://short.ly");
    let original = "https://www.example.com/very/long/url";
    let short_url = shortener.shorten(original);
    assert_eq!(shortener.resolve(&short_url), Some(original.to_string()));
}

#[test]
fn short_url_is_base_slash_and_eight_letters_or_digits() {
    let mut shortener = UrlShortener::new("http://short.ly");
    for _ in 0..50 {
        let short_url = shortener.shorten("https://example.com");
        let id = short_url.strip_prefix("http://short.ly/").unwrap();
        assert_eq!(id.chars().count(), 8);
        assert!(id.chars().all(|c| c.is_ascii_alphanumeric()));
    }
}

#[test]
fn short_ids_differ() {
    let mut shortener = UrlShortener::new("b");
    let first = shortener.shorten("https://example.com/1");
    let second = shortener.shorten("https://example.com/2");
    assert_ne!(first, second);
    assert_eq!(shortener.resolve(&first), Some("https://example.com/1".to_string()));
    assert_eq!(shortener.resolve(&second), Some("https://example.com/2".to_string()));
}

#[test]
fn unknown_urls_do_not_resolve() {
    let mut shortener = UrlShortener::new("http://short.ly");
    assert_eq!(shortener.resolve("http://short.ly/abcdefgh"), None);
    assert_eq!(shortener.resolve(""), None);
    let short_url = shortener.shorten("https://example.com");
    assert_eq!(shortener.resolve(&format!("{}/", short_url)), None);
    assert_eq!(shortener.resolve("http://short.ly"), None);
}

#[test]
fn shorten_with_files_under_the_given_id() {
    let mut shortener = UrlShortener::new("http://short.ly");
    let short_url = shortener.shorten_with("abc12345".to_string(), "https://example.com/a");
    assert_eq!(short_url, "http://short.ly/abc12345");
    assert_eq!(shortener.resolve(&short_url), Some("https://example.com/a".to_string()));
    let again = shortener.shorten_with("abc12345".to_string(), "https://example.com/b");
    assert_eq!(again, short_url);
    assert_eq!(shortener.resolve(&short_url), Some("https://example.com/b".to_string()));
}

#[test]
fn resolve_looks_at_the_last_segment_only() {
    let mut shortener = UrlShortener::new("http://short.ly");
    shortener.shorten_with("abc12345".to_string(), "https://example.com");
    let expected = Some("https://example.com".to_string());
    assert_eq!(shortener.resolve("abc12345"), expected);
    assert_eq!(shortener.resolve("/abc12345"), expected);
    assert_eq!(shortener.resolve("https://elsewhere.org/x/y/abc12345"), expected);
    assert_eq!(shortener.resolve("abc12345/x"), None);
}

#[test]
fn empty_base_and_empty_id() {
    let mut shortener = UrlShortener::new("");
    let short_url = shortener.shorten_with(String::new(), "https://example.com");
    assert_eq!(short_url, "/");
    assert_eq!(shortener.resolve("/"), Some("https://example.com".to_string()));
    assert_eq!(shortener.resolve(""), Some("https://example.com".to_string()));
}
