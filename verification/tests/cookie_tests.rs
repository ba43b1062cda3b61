use arcaferry::cookies::{Cookie, CookieJar};

#[test]
fn test_parse_json_format() {
    let input = r#"[
        {"name": "session", "value": "abc123", "domain": ".example.com", "httpOnly": true},
        {"name": "token", "value": "xyz789", "secure": true}
    ]"#;

    let jar = CookieJar::parse(input).unwrap();
    assert_eq!(jar.len(), 2);

    let session = jar.get("session").unwrap();
    assert_eq!(session.value, "abc123");
    assert_eq!(session.domain.as_deref(), Some(".example.com"));
    assert!(session.http_only);

    let token = jar.get("token").unwrap();
    assert_eq!(token.value, "xyz789");
    assert!(token.secure);
}

#[test]
fn test_parse_netscape_format() {
    let input = "# Netscape HTTP Cookie File\n.example.com\tTRUE\t/\tFALSE\t1234567890\tsession\tabc123\n.example.com\tTRUE\t/api\tTRUE\t1234567890\ttoken\txyz789";

    let jar = CookieJar::parse(input).unwrap();
    assert_eq!(jar.len(), 2);

    let session = jar.get("session").unwrap();
    assert_eq!(session.value, "abc123");
    assert_eq!(session.domain.as_deref(), Some(".example.com"));
    assert!(!session.secure);

    let token = jar.get("token").unwrap();
    assert_eq!(token.value, "xyz789");
    assert_eq!(token.path.as_deref(), Some("/api"));
    assert!(token.secure);
}

#[test]
fn test_parse_header_string_format() {
    let input = "session=abc123; token=xyz789";
    let jar = CookieJar::parse(input).unwrap();
    assert_eq!(jar.len(), 2);
    assert_eq!(jar.get("session").unwrap().value, "abc123");
    assert_eq!(jar.get("token").unwrap().value, "xyz789");
}

#[test]
fn test_parse_header_string_with_cookie_prefix() {
    let input = "Cookie: session=abc123; token=xyz789";
    let jar = CookieJar::parse(input).unwrap();
    assert_eq!(jar.len(), 2);
    assert_eq!(jar.get("session").unwrap().value, "abc123");
}

#[test]
fn test_to_header_string() {
    let mut jar = CookieJar::new();
    jar.insert(Cookie {
        name: "a".to_string(),
        value: "1".to_string(),
        domain: None,
        path: None,
        http_only: false,
        secure: false,
    });

    let header = jar.to_header_string();
    assert!(header.contains("a=1"));
}

#[test]
fn test_empty_input() {
    let jar = CookieJar::parse("").unwrap();
    assert!(jar.is_empty());

    let jar = CookieJar::parse("   ").unwrap();
    assert!(jar.is_empty());
}

#[test]
fn test_later_cookie_overwrites_earlier() {
    let jar = CookieJar::parse("a=1; b=2; a=3").unwrap();
    assert_eq!(jar.len(), 2);
    assert_eq!(jar.get("a").unwrap().value, "3");
    assert_eq!(jar.get("b").unwrap().value, "2");
}

#[test]
fn test_parse_is_deterministic() {
    let input = "Cookie: s=1; t=2; s=9";
    let a = CookieJar::parse(input).unwrap();
    let b = CookieJar::parse(input).unwrap();
    assert_eq!(a.len(), b.len());
    for cookie in a.as_map() {
        let other = b.get(&cookie.name).unwrap();
        assert_eq!(cookie.value, other.value);
    }
    assert_eq!(a.to_header_string(), b.to_header_string());
}

#[test]
fn test_bad_json_array_is_an_error() {
    assert!(CookieJar::parse("[{this is not json").is_err());
}

#[test]
fn test_to_simple_map_pairs() {
    let jar = CookieJar::parse("x=10; y=20").unwrap();
    let pairs = jar.to_simple_map();
    assert_eq!(pairs.len(), 2);
    assert!(pairs.contains(&("x".to_string(), "10".to_string())));
    assert!(pairs.contains(&("y".to_string(), "20".to_string())));
}
