use arcaferry::error::ArcaferryError;
use arcaferry::protocol::{
    fetch_step, start_fetch, ChatCreated, FetchAction, FetchEvent, FetchPhase,
};
use arcaferry::quack::{
    classify_api_response, QuackApiResponse, QuackCharacterInfo, QuackLorebookEntry,
    QuackLorebookWrapper, QuackUrlType,
};
use arcaferry::session::{Session, SessionManager};
use arcaferry::sidecar::{
    env_flag_truthy, interpret_sidecar_result, parse_timeout_secs, sidecar_command_args,
    sidecar_timeout_message, SidecarInvokeParams,
};
use arcaferry::ccv3::CharacterCardV3;
use arcaferry::png_export::{create_card_png, generate_placeholder_png};
use arcaferry::png::{extract_idat_chunks, get_card_data, read_text_chunks};

#[test]
fn test_happy_share_fetch_flow() {
    // the stubbed happy path: share info arrives complete, no chat
    // session is needed
    let (flow, action) = start_fetch("testsid".to_string(), QuackUrlType::Share);
    match &action {
        FetchAction::GetShareInfo(sid) => assert_eq!(sid, "testsid"),
        other => panic!("expected GetShareInfo, got {:?}", other),
    }
    let mut info = QuackCharacterInfo::empty();
    info.name = "Test Character".to_string();
    info.tags = Some(vec!["TestTag".to_string()]);
    let (flow2, action2) = fetch_step(flow, FetchEvent::ShareInfo(Ok(info)), 0);
    assert_eq!(flow2.phase, FetchPhase::Done);
    match action2 {
        FetchAction::Finish(out) => {
            assert_eq!(out.info.name, "Test Character");
            assert!(out.entries.is_empty());
            assert!(out.chat_index.is_none());
            let card = arcaferry::quack::map_quack_to_v3(&out.info, &out.entries, 42);
            assert_eq!(card.spec, "chara_card_v3");
            assert_eq!(card.data.name, "Test Character");
            assert!(card.data.tags.contains(&"QuackAI".to_string()));
        }
        other => panic!("expected Finish, got {:?}", other),
    }
}

#[test]
fn test_share_fetch_fails_with_upstream_error() {
    let (flow, _) = start_fetch("unauthorized".to_string(), QuackUrlType::Share);
    let (flow2, action) = fetch_step(
        flow,
        FetchEvent::ShareInfo(Err(ArcaferryError::Unauthorized("denied".into()))),
        0,
    );
    assert_eq!(flow2.phase, FetchPhase::Failed);
    match action {
        FetchAction::Fail(ArcaferryError::Unauthorized(m)) => assert_eq!(m, "denied"),
        other => panic!("expected Fail(Unauthorized), got {:?}", other),
    }
}

#[test]
fn test_dream_fetch_requires_origin_sid() {
    let (flow, action) = start_fetch("idx9".to_string(), QuackUrlType::Dream);
    match &action {
        FetchAction::GetChatInfo(i) => assert_eq!(i, "idx9"),
        other => panic!("expected GetChatInfo, got {:?}", other),
    }
    let ci = QuackCharacterInfo::empty();
    let (flow2, action2) = fetch_step(flow, FetchEvent::ChatInfo(Ok(ci)), 0);
    assert_eq!(flow2.phase, FetchPhase::Failed);
    match action2 {
        FetchAction::Fail(ArcaferryError::MissingField(m)) => {
            assert_eq!(m, "originSid in chat info");
        }
        other => panic!("expected MissingField, got {:?}", other),
    }
}

#[test]
fn test_chat_session_created_for_hidden_settings() {
    let (flow, _) = start_fetch("sid1".to_string(), QuackUrlType::Share);
    let mut info = QuackCharacterInfo::empty();
    info.name = "H".to_string();
    info.custom_attrs = Some(vec![arcaferry::quack::QuackRawAttr {
        attr: arcaferry::quack::QuackAttribute {
            label: Some("X".to_string()),
            name: None,
            value: Some("".to_string()),
            is_visible: Some(false),
        },
        decoded: true,
        rest: serde_json::Map::new(),
    }]);
    let (flow2, action2) = fetch_step(flow, FetchEvent::ShareInfo(Ok(info)), 0);
    assert_eq!(flow2.phase, FetchPhase::AwaitInteract);
    match &action2 {
        FetchAction::PostInteractCard(cid) => assert_eq!(cid, "sid1"),
        other => panic!("expected PostInteractCard, got {:?}", other),
    }

    let mut card = QuackCharacterInfo::empty();
    card.sid = Some("studio77".to_string());
    let (flow3, action3) = fetch_step(flow2, FetchEvent::Interacted(Ok(card)), 0);
    assert_eq!(flow3.phase, FetchPhase::AwaitPersona);
    assert!(matches!(action3, FetchAction::GetPersonaList));

    let (flow4, action4) = fetch_step(flow3, FetchEvent::PersonaName(None), 0);
    assert_eq!(flow4.phase, FetchPhase::AwaitPreset);
    assert!(matches!(action4, FetchAction::GetPresetList));
    assert_eq!(flow4.persona, "momo");

    let (flow5, action5) = fetch_step(flow4, FetchEvent::PresetName(None), 1234);
    assert_eq!(flow5.phase, FetchPhase::AwaitChatCreate);
    match &action5 {
        FetchAction::PostChatCreate(plan) => {
            assert_eq!(plan.cid, "studio77");
            assert_eq!(plan.chat_type, "studio");
            assert_eq!(plan.name, "ferry_1234");
            assert_eq!(plan.persona_name, "momo");
            assert_eq!(plan.preset, "Quack \u{901a}\u{7528}\u{9884}\u{8bbe}");
        }
        other => panic!("expected PostChatCreate, got {:?}", other),
    }

    let chat = ChatCreated {
        cid: "c9".to_string(),
        index: "i9".to_string(),
        characterbooks: None,
    };
    let (flow6, action6) = fetch_step(flow5, FetchEvent::ChatCreationDone(Ok(chat)), 0);
    // no lorebook was needed, so the flow finishes with the chat index
    assert_eq!(flow6.phase, FetchPhase::Done);
    match action6 {
        FetchAction::Finish(out) => {
            assert_eq!(out.chat_index.as_deref(), Some("i9"));
        }
        other => panic!("expected Finish, got {:?}", other),
    }
}

#[test]
fn test_lorebook_fetch_after_chat_creation() {
    let (flow, _) = start_fetch("sid2".to_string(), QuackUrlType::Share);
    let mut info = QuackCharacterInfo::empty();
    info.name = "L".to_string();
    let mut entry = QuackLorebookEntry::empty();
    entry.content = Some("_".to_string());
    info.characterbooks = Some(vec![QuackLorebookWrapper {
        entry_list: Some(vec![entry]),
        name: None,
        extra: serde_json::Map::new(),
    }]);
    let (flow2, _a) = fetch_step(flow, FetchEvent::ShareInfo(Ok(info)), 0);
    assert_eq!(flow2.phase, FetchPhase::AwaitInteract);
    assert!(flow2.needs_lorebook);

    let mut card = QuackCharacterInfo::empty();
    card.cid = Some("sc".to_string());
    let (flow3, _) = fetch_step(flow2, FetchEvent::Interacted(Ok(card)), 0);
    let (flow4, _) = fetch_step(flow3, FetchEvent::PersonaName(Some("p".into())), 0);
    let (flow5, _) = fetch_step(flow4, FetchEvent::PresetName(Some("q".into())), 0);
    let chat = ChatCreated {
        cid: "cid5".to_string(),
        index: "idx5".to_string(),
        characterbooks: None,
    };
    let (flow6, action6) = fetch_step(flow5, FetchEvent::ChatCreationDone(Ok(chat)), 0);
    assert_eq!(flow6.phase, FetchPhase::AwaitChatRefetch);
    assert!(matches!(action6, FetchAction::GetChatInfo(_)));

    let (flow7, action7) = fetch_step(
        flow6,
        FetchEvent::ChatRefetched(Err(ArcaferryError::NetworkError("x".into()))),
        0,
    );
    assert_eq!(flow7.phase, FetchPhase::AwaitLorebook);
    match &action7 {
        FetchAction::GetLorebook(i, c) => {
            assert_eq!(i, "idx5");
            assert_eq!(c, "cid5");
        }
        other => panic!("expected GetLorebook, got {:?}", other),
    }

    let mut good = QuackLorebookEntry::empty();
    good.content = Some("real content".to_string());
    let (flow8, action8) = fetch_step(flow7, FetchEvent::LorebookFetched(Ok(vec![good])), 0);
    assert_eq!(flow8.phase, FetchPhase::Done);
    match action8 {
        FetchAction::Finish(out) => {
            assert_eq!(out.entries.len(), 1);
            assert_eq!(out.entries[0].content.as_deref(), Some("real content"));
        }
        other => panic!("expected Finish, got {:?}", other),
    }
}

#[test]
fn test_classify_api_response_envelope() {
    let ok: QuackApiResponse<u32> = QuackApiResponse { code: 0, data: Some(7), msg: None };
    assert_eq!(classify_api_response(ok).unwrap(), 7);

    let missing: QuackApiResponse<u32> = QuackApiResponse { code: 0, data: None, msg: None };
    assert!(matches!(
        classify_api_response(missing),
        Err(ArcaferryError::MissingField(_))
    ));

    let auth: QuackApiResponse<u32> =
        QuackApiResponse { code: 401, data: None, msg: Some("nope".into()) };
    assert!(matches!(
        classify_api_response(auth),
        Err(ArcaferryError::Unauthorized(_))
    ));

    let auth_msg: QuackApiResponse<u32> =
        QuackApiResponse { code: 7, data: None, msg: Some("Auth needed".into()) };
    assert!(matches!(
        classify_api_response(auth_msg),
        Err(ArcaferryError::Unauthorized(_))
    ));

    let other: QuackApiResponse<u32> =
        QuackApiResponse { code: 5, data: None, msg: Some("boom".into()) };
    match classify_api_response(other) {
        Err(ArcaferryError::NetworkError(m)) => {
            assert_eq!(m, "Quack API error (code 5): boom");
        }
        o => panic!("expected NetworkError, got {:?}", o),
    }
}

#[test]
fn test_sidecar_args_and_results() {
    let params = SidecarInvokeParams {
        cookies: Some("a=1".to_string()),
        bearer_token: None,
        gemini_api_key: Some("  ".to_string()),
        user_agent: Some("UA".to_string()),
        dream_url: None,
    };
    let args = sidecar_command_args(
        "https://purrly.ai/discovery/share/x",
        &vec!["X".to_string()],
        true,
        false,
        &params,
    );
    assert_eq!(args[0], "--url");
    assert_eq!(args[1], "https://purrly.ai/discovery/share/x");
    assert_eq!(args[2], "--labels");
    assert_eq!(args[3], "[\"X\"]");
    assert_eq!(args[4], "--headed");
    assert_eq!(args[5], "--cookies");
    assert_eq!(args[6], "a=1");
    // blank gemini key is dropped
    assert_eq!(args[7], "--user-agent");
    assert_eq!(args[8], "UA");
    assert_eq!(args.len(), 9);

    let ok = interpret_sidecar_result(
        true,
        "exit status: 0",
        "[{\"label\":\"X\",\"value\":\"V\"}]",
        "  noise \n",
    )
    .unwrap();
    assert_eq!(ok.attrs.len(), 1);
    assert_eq!(ok.attrs[0].label.as_deref(), Some("X"));
    assert_eq!(ok.attrs[0].value.as_deref(), Some("V"));
    assert_eq!(ok.stderr, "noise");

    let bad = interpret_sidecar_result(false, "exit status: 2", "", "boom");
    match bad {
        Err(ArcaferryError::BrowserError(m)) => {
            assert!(m.contains("Sidecar exited with exit status: 2"));
            assert!(m.contains("boom"));
        }
        o => panic!("expected BrowserError, got {:?}", o),
    }

    let unparsable = interpret_sidecar_result(true, "exit status: 0", "not json", "");
    match unparsable {
        Err(ArcaferryError::BrowserError(m)) => {
            assert!(m.contains("Failed to parse sidecar JSON output"));
        }
        o => panic!("expected BrowserError, got {:?}", o),
    }

    assert!(sidecar_timeout_message(300).contains("Sidecar timeout (300s)"));
}

#[test]
fn test_env_flag_and_timeout_parsing() {
    assert!(env_flag_truthy(Some(&"1".to_string())));
    assert!(env_flag_truthy(Some(&" yes ".to_string())));
    assert!(!env_flag_truthy(Some(&"0".to_string())));
    assert!(!env_flag_truthy(Some(&"false".to_string())));
    assert!(!env_flag_truthy(Some(&"False".to_string())));
    assert!(!env_flag_truthy(Some(&"  ".to_string())));
    assert!(!env_flag_truthy(None));

    assert_eq!(parse_timeout_secs(Some(&"120".to_string()), 300), 120);
    assert_eq!(parse_timeout_secs(Some(&"oops".to_string()), 300), 300);
    assert_eq!(parse_timeout_secs(None, 300), 300);

    assert_eq!(arcaferry::server::parse_avatar_timeout(Some(&"2".to_string())), 5);
    assert_eq!(arcaferry::server::parse_avatar_timeout(Some(&"999".to_string())), 180);
    assert_eq!(arcaferry::server::parse_avatar_timeout(None), 30);
}

#[test]
fn test_session_store_roundtrip() {
    let mut mgr = SessionManager::new();
    let s = Session::new("quack", 1000).with_bearer_token("tok").with_expiry(1000, 50);
    mgr.set(s);

    let got = mgr.get("quack", 1020).unwrap();
    assert_eq!(got.platform, "quack");
    assert_eq!(got.bearer_token.as_deref(), Some("tok"));

    // expired sessions read as absent
    assert!(mgr.get("quack", 2000).is_none());
    assert!(!mgr.has_valid_session("quack", 2000));
    assert!(mgr.has_valid_session("quack", 1010));

    // replacement by platform key
    let s2 = Session::new("quack", 3000);
    mgr.set(s2);
    assert_eq!(mgr.list_platforms(), vec!["quack".to_string()]);
    let got2 = mgr.get("quack", 5000).unwrap();
    assert_eq!(got2.created_at, 3000);
    assert!(got2.bearer_token.is_none());

    assert!(mgr.remove("quack").is_some());
    assert!(mgr.get("quack", 0).is_none());
}

#[test]
fn test_generate_placeholder_png() {
    let png = generate_placeholder_png();
    assert!(png.len() > 100);
    assert_eq!(&png[0..8], &[0x89, 0x50, 0x4E, 0x47, 0x0D, 0x0A, 0x1A, 0x0A]);
    let chunks = arcaferry::png::read_chunks(&png).unwrap();
    assert_eq!(chunks.len(), 3);
    assert_eq!(chunks[0].type_string(), "IHDR");
    assert_eq!(chunks[1].type_string(), "IDAT");
    assert_eq!(chunks[2].type_string(), "IEND");
}

fn simple_card_jsons() -> (String, String) {
    let card = CharacterCardV3::new("Test".to_string());
    let json = format!(
        "{{\"spec\":\"{}\",\"spec_version\":\"{}\",\"data\":{{\"name\":\"{}\"}}}}",
        card.spec, card.spec_version, card.data.name
    );
    let v2 = format!("{{\"name\":\"{}\"}}", card.data.name);
    (json, v2)
}

#[test]
fn test_create_card_png_with_placeholder() {
    let (json, v2) = simple_card_jsons();
    let png = create_card_png(&json, &v2, None).unwrap();

    let card_data = get_card_data(&png).unwrap();
    assert!(card_data.is_some());
    let (format, payload) = card_data.unwrap();
    assert_eq!(format, "ccv3");
    assert_eq!(payload, json);
}

#[test]
fn test_create_card_png_has_v2_chunk() {
    let (json, v2) = simple_card_jsons();
    let png = create_card_png(&json, &v2, None).unwrap();

    let text_chunks = read_text_chunks(&png).unwrap();
    let keys: Vec<_> = text_chunks.iter().map(|p| p.0.clone()).collect();
    assert!(keys.contains(&"chara".to_string()), "Should have chara chunk for V2 compatibility");
    assert!(keys.contains(&"ccv3".to_string()), "Should have ccv3 chunk");
}

#[test]
fn test_create_card_png_preserves_idat() {
    let placeholder = generate_placeholder_png();
    let original_idat = extract_idat_chunks(&placeholder).unwrap();

    let (json, v2) = simple_card_jsons();
    let b64 = b64_of(&placeholder);
    let result = create_card_png(&json, &v2, Some(&b64)).unwrap();

    let result_idat = extract_idat_chunks(&result).unwrap();
    assert_eq!(
        original_idat, result_idat,
        "IDAT chunks must be preserved exactly"
    );
}

/// Standard base64 with padding, written out for the test's own use.
fn b64_of(data: &[u8]) -> String {
    const TABLE: &[u8; 64] = b"ABCDEFGHIJKLMNOPQRSTUVWXYZabcdefghijklmnopqrstuvwxyz0123456789+/";
    let mut out = String::new();
    for chunk in data.chunks(3) {
        let b0 = chunk[0] as u32;
        let b1 = *chunk.get(1).unwrap_or(&0) as u32;
        let b2 = *chunk.get(2).unwrap_or(&0) as u32;
        let n = (b0 << 16) | (b1 << 8) | b2;
        out.push(TABLE[(n >> 18) as usize & 63] as char);
        out.push(TABLE[(n >> 12) as usize & 63] as char);
        if chunk.len() > 1 {
            out.push(TABLE[(n >> 6) as usize & 63] as char);
        } else {
            out.push('=');
        }
        if chunk.len() > 2 {
            out.push(TABLE[n as usize & 63] as char);
        } else {
            out.push('=');
        }
    }
    out
}

#[test]
fn test_error_messages() {
    assert_eq!(
        ArcaferryError::RateLimited(60).message(),
        "Rate limited: retry after 60s"
    );
    assert_eq!(
        ArcaferryError::InvalidUrl("Empty input".into()).message(),
        "Invalid URL: Empty input"
    );
    assert!(ArcaferryError::CloudflareBlocked.message().contains("cf_clearance"));
}
