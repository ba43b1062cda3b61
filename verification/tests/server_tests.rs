use arcaferry::error::ArcaferryError;
use arcaferry::http::{
    check_version_warning, classify_success_body, find_closest_emulation, get_supported_browsers,
    parse_user_agent, sse_collect, status_to_error, BrowserKind, EmulationProfile, OsKind,
};
use arcaferry::quack::{QuackAttribute, QuackCharListItem, QuackCharacterInfo, QuackRawAttr};
use arcaferry::server::{
    apply_hidden_settings, clamp_concurrency, cloudflare_auth_guidance, error_to_http,
    extract_preview_from_quack, has_cf_clearance_cookie, looks_like_json_object,
    maybe_attach_cloudflare_guidance, sidecar_debug_warning, summarize_batch,
};

fn mk_attr(label: Option<&str>, name: Option<&str>, value: Option<&str>, vis: Option<bool>)
    -> QuackAttribute {
    QuackAttribute {
        label: label.map(String::from),
        name: name.map(String::from),
        value: value.map(String::from),
        is_visible: vis,
    }
}

#[test]
fn test_status_to_error_unauthorized_blank_body_is_actionable() {
    match status_to_error(401, "") {
        ArcaferryError::Unauthorized(msg) => {
            assert!(msg.contains("Authentication required"));
            assert!(msg.contains("cf_clearance"));
        }
        other => panic!("expected Unauthorized, got: {:?}", other),
    }
}

#[test]
fn test_status_to_error_unauthorized_non_blank_body_preserved() {
    let body = "missing token";
    match status_to_error(401, body) {
        ArcaferryError::Unauthorized(msg) => assert_eq!(msg, body),
        other => panic!("expected Unauthorized, got: {:?}", other),
    }
}

#[test]
fn test_status_to_error_cloudflare_detection_on_403() {
    match status_to_error(403, "cloudflare") {
        ArcaferryError::CloudflareBlocked => {}
        other => panic!("expected CloudflareBlocked, got: {:?}", other),
    }
}

#[test]
fn test_status_to_error_cloudflare_detection_on_503() {
    match status_to_error(503, "<!DOCTYPE html><title>Just a moment...</title>") {
        ArcaferryError::CloudflareBlocked => {}
        other => panic!("expected CloudflareBlocked, got: {:?}", other),
    }
}

#[test]
fn test_status_to_error_rate_limited() {
    match status_to_error(429, "slow down") {
        ArcaferryError::RateLimited(secs) => assert_eq!(secs, 60),
        other => panic!("expected RateLimited, got: {:?}", other),
    }
}

#[test]
fn test_classify_success_body_html() {
    match classify_success_body("<!DOCTYPE html><p>cloudflare</p>") {
        Some(ArcaferryError::CloudflareBlocked) => {}
        other => panic!("expected CloudflareBlocked, got: {:?}", other),
    }
    match classify_success_body("<html><body>hi</body></html>") {
        Some(ArcaferryError::InvalidJson(m)) => {
            assert_eq!(m, "Received HTML instead of JSON");
        }
        other => panic!("expected InvalidJson, got: {:?}", other),
    }
    assert!(classify_success_body("{\"ok\":true}").is_none());
}

#[test]
fn test_error_to_http_mapping() {
    let cases: Vec<(ArcaferryError, u16, &str)> = vec![
        (ArcaferryError::Unauthorized("x".into()), 401, "UNAUTHORIZED"),
        (ArcaferryError::RateLimited(60), 429, "RATE_LIMITED"),
        (ArcaferryError::Timeout("t".into()), 504, "TIMEOUT"),
        (ArcaferryError::CloudflareBlocked, 503, "CLOUDFLARE_BLOCKED"),
        (ArcaferryError::InvalidUrl("u".into()), 400, "INVALID_URL"),
        (ArcaferryError::InvalidJson("j".into()), 400, "PARSE_ERROR"),
        (ArcaferryError::ValidationError("v".into()), 400, "PARSE_ERROR"),
        (ArcaferryError::NetworkError("n".into()), 502, "NETWORK_ERROR"),
        (ArcaferryError::MissingField("m".into()), 502, "NETWORK_ERROR"),
    ];
    for (e, status, code) in cases {
        let (s, c) = error_to_http(&e);
        assert_eq!(s, status);
        assert_eq!(c, code);
    }
}

#[test]
fn test_cloudflare_guidance_mentions_cf_clearance() {
    let g = cloudflare_auth_guidance(false, false);
    assert!(g.contains("cf_clearance"));
    assert!(g.contains("Missing Cloudflare cookie"));
    assert!(g.contains("user_agent"));

    let e = ArcaferryError::CloudflareBlocked;
    let msg = maybe_attach_cloudflare_guidance(&e, "CLOUDFLARE_BLOCKED", false, true);
    assert!(msg.contains("cf_clearance"));
    assert!(msg.contains("Cloudflare verification required"));

    let other = ArcaferryError::Unauthorized("no".into());
    let msg2 = maybe_attach_cloudflare_guidance(&other, "UNAUTHORIZED", false, true);
    assert!(!msg2.contains("How to fix Cloudflare verification"));
}

#[test]
fn test_has_cf_clearance_cookie_detection() {
    let jar = arcaferry::cookies::CookieJar::parse("cf_clearance=zzz; a=1").unwrap();
    assert!(has_cf_clearance_cookie(None, Some(&jar)));
    assert!(has_cf_clearance_cookie(Some("cf_clearance=zzz"), None));
    assert!(!has_cf_clearance_cookie(Some("other=1"), None));
    assert!(!has_cf_clearance_cookie(None, None));
}

#[test]
fn test_apply_hidden_settings_updates_multiple_locations() {
    let mut rest = serde_json::Map::new();
    rest.insert("keepMe".to_string(), serde_json::Value::from(123));

    let mut info = QuackCharacterInfo::empty();
    info.name = "Test".to_string();
    info.custom_attrs = Some(vec![QuackRawAttr {
        attr: mk_attr(Some("TopSecret"), None, Some(""), Some(false)),
        decoded: true,
        rest,
    }]);
    info.char_list = Some(vec![QuackCharListItem {
        name: Some("Test".to_string()),
        attrs: Some(vec![mk_attr(Some("A"), None, Some(""), Some(false))]),
        advise_attrs: Some(vec![mk_attr(None, Some("B"), Some(""), Some(false))]),
        custom_attrs: Some(vec![mk_attr(Some("C"), None, Some(""), Some(false))]),
        prompt: None,
        picture: None,
        extra: serde_json::Map::new(),
    }]);

    let extracted = vec![
        mk_attr(Some("TopSecret"), None, Some("V1"), Some(false)),
        mk_attr(Some("A"), None, Some("V2"), Some(false)),
        mk_attr(None, Some("B"), Some("V3"), Some(false)),
        mk_attr(Some("C"), None, Some("V4"), Some(false)),
    ];

    let applied = apply_hidden_settings(&mut info, &extracted);
    assert_eq!(applied, 4);

    let top = &info.custom_attrs.as_ref().unwrap()[0];
    assert_eq!(top.attr.value.as_deref(), Some("V1"));
    assert_eq!(top.rest.get("keepMe").unwrap().as_i64().unwrap(), 123);

    let first = &info.char_list.as_ref().unwrap()[0];
    assert_eq!(first.attrs.as_ref().unwrap()[0].value.as_deref(), Some("V2"));
    assert_eq!(
        first.advise_attrs.as_ref().unwrap()[0].value.as_deref(),
        Some("V3")
    );
    assert_eq!(
        first.custom_attrs.as_ref().unwrap()[0].value.as_deref(),
        Some("V4")
    );
}

#[test]
fn test_apply_hidden_settings_all_four_locations_same_label() {
    let mut info = QuackCharacterInfo::empty();
    info.custom_attrs = Some(vec![QuackRawAttr {
        attr: mk_attr(Some("X"), None, Some(""), Some(false)),
        decoded: true,
        rest: serde_json::Map::new(),
    }]);
    info.char_list = Some(vec![QuackCharListItem {
        name: None,
        attrs: Some(vec![mk_attr(Some("X"), None, Some(""), Some(false))]),
        advise_attrs: Some(vec![mk_attr(Some("X"), None, Some(""), Some(false))]),
        custom_attrs: Some(vec![mk_attr(Some("X"), None, Some(""), Some(false))]),
        prompt: None,
        picture: None,
        extra: serde_json::Map::new(),
    }]);

    let extracted = vec![mk_attr(Some("X"), None, Some("V"), Some(false))];
    let applied = apply_hidden_settings(&mut info, &extracted);
    assert_eq!(applied, 4);

    assert_eq!(
        info.custom_attrs.as_ref().unwrap()[0].attr.value.as_deref(),
        Some("V")
    );
    let first = &info.char_list.as_ref().unwrap()[0];
    assert_eq!(first.attrs.as_ref().unwrap()[0].value.as_deref(), Some("V"));
    assert_eq!(first.advise_attrs.as_ref().unwrap()[0].value.as_deref(), Some("V"));
    assert_eq!(first.custom_attrs.as_ref().unwrap()[0].value.as_deref(), Some("V"));
}

#[test]
fn test_get_hidden_attr_labels_uses_all_attrs_and_dedupes() {
    let mut info = QuackCharacterInfo::empty();
    info.name = "Test".to_string();
    info.custom_attrs = Some(vec![
        QuackRawAttr {
            attr: mk_attr(Some("X"), None, Some(""), Some(false)),
            decoded: true,
            rest: serde_json::Map::new(),
        },
        QuackRawAttr {
            attr: mk_attr(Some("X"), None, Some(""), Some(false)),
            decoded: true,
            rest: serde_json::Map::new(),
        },
    ]);
    info.char_list = Some(vec![QuackCharListItem {
        name: None,
        attrs: Some(vec![mk_attr(None, Some("Y"), Some(""), Some(false))]),
        advise_attrs: None,
        custom_attrs: None,
        prompt: None,
        picture: None,
        extra: serde_json::Map::new(),
    }]);

    let labels = arcaferry::quack::get_hidden_attr_labels(&info);
    assert_eq!(labels, vec!["X".to_string(), "Y".to_string()]);
}

#[test]
fn test_summarize_batch_mixed() {
    let (total, succeeded, failed, success) = summarize_batch(&vec![true, false]);
    assert_eq!(total, 2);
    assert_eq!(succeeded, 1);
    assert_eq!(failed, 1);
    assert!(!success);

    let (_, s2, f2, ok2) = summarize_batch(&vec![true, true]);
    assert_eq!(s2, 2);
    assert_eq!(f2, 0);
    assert!(ok2);
}

#[test]
fn test_clamp_concurrency_bounds() {
    assert_eq!(clamp_concurrency(0), 1);
    assert_eq!(clamp_concurrency(3), 3);
    assert_eq!(clamp_concurrency(99), 5);
}

#[test]
fn test_looks_like_json_object_detection() {
    assert!(looks_like_json_object("  {\"a\":1}"));
    assert!(looks_like_json_object("\u{feff}{\"a\":1}"));
    assert!(!looks_like_json_object("https://purrly.ai/x"));
    assert!(!looks_like_json_object(""));
}

#[test]
fn test_sidecar_debug_warning_single_line() {
    assert!(sidecar_debug_warning("   ").is_none());
    let w = sidecar_debug_warning("line one\nline two").unwrap();
    assert_eq!(w, "sidecar debug: line one | line two");
    let long = "x".repeat(600);
    let t = sidecar_debug_warning(&long).unwrap();
    assert!(t.chars().count() < 600);
    assert!(t.contains('\u{2026}'));
}

#[test]
fn test_extract_preview_counts_and_intro() {
    let mut info = QuackCharacterInfo::empty();
    info.name = "P".to_string();
    info.intro = Some("i".repeat(250));
    info.tags = Some((0..15).map(|i| format!("t{}", i)).collect());
    info.custom_attrs = Some(vec![QuackRawAttr {
        attr: mk_attr(Some("A"), None, Some("1"), Some(true)),
        decoded: true,
        rest: serde_json::Map::new(),
    }]);

    let p = extract_preview_from_quack(&info);
    assert_eq!(p.name, "P");
    assert_eq!(p.intro.chars().count(), 200);
    assert!(p.intro.ends_with("..."));
    assert_eq!(p.tags.len(), 10);
    assert_eq!(p.attr_count, 1);
    assert_eq!(p.lorebook_count, 0);
    assert_eq!(p.source, "");
}

#[test]
fn test_version_warning_and_profiles() {
    let profiles = vec![
        EmulationProfile { browser: BrowserKind::Chrome, version: 120 },
        EmulationProfile { browser: BrowserKind::Chrome, version: 131 },
        EmulationProfile { browser: BrowserKind::Edge, version: 122 },
        EmulationProfile { browser: BrowserKind::Firefox, version: 128 },
    ];
    let sup = get_supported_browsers(&profiles);
    assert_eq!(sup.chrome.unwrap().max, 131);
    assert_eq!(sup.edge.unwrap().min, 122);
    assert!(sup.safari.is_none());

    let ua = "Mozilla/5.0 (Windows NT 10.0) Chrome/140.0 Safari/537.36";
    let w = check_version_warning(Some(ua), &profiles).unwrap();
    assert_eq!(w.browser, "Chrome");
    assert_eq!(w.user_version, 140);
    assert_eq!(w.max_supported, 131);
    assert!(w.message.contains("140"));

    assert!(check_version_warning(Some("Chrome/131 x"), &profiles).is_none());
    assert!(check_version_warning(None, &profiles).is_none());

    // Edge declared: the Edge range is checked first
    let edge_ua = "Mozilla/5.0 Chrome/140 Edg/140.0";
    let we = check_version_warning(Some(edge_ua), &profiles).unwrap();
    assert_eq!(we.browser, "Edge");
}

#[test]
fn test_parse_user_agent_selection() {
    let profiles = vec![
        EmulationProfile { browser: BrowserKind::Chrome, version: 120 },
        EmulationProfile { browser: BrowserKind::Chrome, version: 131 },
        EmulationProfile { browser: BrowserKind::Edge, version: 122 },
        EmulationProfile { browser: BrowserKind::Firefox, version: 128 },
    ];
    let (p, os) = parse_user_agent(
        Some("Mozilla/5.0 (Macintosh; Intel Mac OS X) Chrome/121.0"),
        &profiles,
    );
    assert_eq!(os, OsKind::MacOs);
    let p = p.unwrap();
    assert_eq!(p.browser, BrowserKind::Chrome);
    assert_eq!(p.version, 120);

    // no agent: the newest Chrome profile
    let (p2, os2) = parse_user_agent(None, &profiles);
    assert_eq!(os2, OsKind::Windows);
    assert_eq!(p2.unwrap().version, 131);

    // closest match helper
    let c = find_closest_emulation(&profiles, BrowserKind::Edge, 999).unwrap();
    assert_eq!(c.version, 122);
}

#[test]
fn test_sse_collect_lines() {
    let body = "data: {\"choices\":[{\"delta\":{\"content\":\"Hel\"}}]}\ndata: {\"content\":\"lo\"}\nignored line\ndata: [DONE]\ndata: {\"content\":\"dropped, no trailing newline\"}";
    assert_eq!(sse_collect(body), "Hello");
}
