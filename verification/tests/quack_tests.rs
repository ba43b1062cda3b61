use arcaferry::quack::{
    build_avatar_url, collect_all_attrs, extract_greetings, extract_personality, extract_quack_id,
    extract_tags, format_attrs, format_hidden_attrs, get_api_base, get_url_type,
    get_hidden_attr_labels, has_empty_hidden_settings, map_lorebook_entry, map_quack_to_v3,
    QuackAdapter, QuackAttribute, QuackCharListItem, QuackCharacterInfo, QuackGreetingItem,
    QuackLorebookEntry, QuackRawAttr, QuackUrlType, PURRLY_API_BASE, QUACK_API_BASE,
};

fn attr(label: Option<&str>, name: Option<&str>, value: Option<&str>, vis: Option<bool>)
    -> QuackAttribute {
    QuackAttribute {
        label: label.map(String::from),
        name: name.map(String::from),
        value: value.map(String::from),
        is_visible: vis,
    }
}

#[test]
fn test_extract_quack_id_raw() {
    assert_eq!(extract_quack_id("abc123").unwrap(), "abc123");
    assert_eq!(extract_quack_id("ABC_123-xyz").unwrap(), "ABC_123-xyz");
    assert_eq!(
        extract_quack_id("-SEgbwsYFEBj3Q2yFRnBZ").unwrap(),
        "-SEgbwsYFEBj3Q2yFRnBZ"
    );
}

#[test]
fn test_extract_quack_id_purrly_dream() {
    assert_eq!(
        extract_quack_id("https://purrly.ai/dream/abc123").unwrap(),
        "abc123"
    );
    assert_eq!(
        extract_quack_id("https://purrly.ai/dream/-SEgbwsYFEBj3Q2yFRnBZ").unwrap(),
        "-SEgbwsYFEBj3Q2yFRnBZ"
    );
}

#[test]
fn test_extract_quack_id_purrly_share() {
    assert_eq!(
        extract_quack_id("https://purrly.ai/discovery/share/-SEgbwsYFEBj3Q2yFRnBZ").unwrap(),
        "-SEgbwsYFEBj3Q2yFRnBZ"
    );
    assert_eq!(
        extract_quack_id("https://purrly.ai/discovery/share/-SEgbwsYFEBj3Q2yFRnBZ?type=studio")
            .unwrap(),
        "-SEgbwsYFEBj3Q2yFRnBZ"
    );
}

#[test]
fn test_extract_quack_id_quack_character() {
    assert_eq!(
        extract_quack_id("https://quack.im/character/abc123").unwrap(),
        "abc123"
    );
}

#[test]
fn test_extract_quack_id_quack_studio() {
    assert_eq!(
        extract_quack_id("https://quack.im/studio/card/abc123").unwrap(),
        "abc123"
    );
    assert_eq!(
        extract_quack_id("https://quack.icu/studio/card/abc123").unwrap(),
        "abc123"
    );
    assert_eq!(
        extract_quack_id("https://quack.work/studio/card/abc123").unwrap(),
        "abc123"
    );
}

#[test]
fn test_extract_quack_id_single_path() {
    assert_eq!(
        extract_quack_id("https://purrly.ai/abc123").unwrap(),
        "abc123"
    );
}

#[test]
fn test_extract_quack_id_invalid() {
    assert!(extract_quack_id("").is_err());
    assert!(extract_quack_id("   ").is_err());
    assert!(extract_quack_id("https://example.com/").is_err());
}

#[test]
fn test_get_api_base() {
    assert_eq!(get_api_base("https://quack.im/dream/abc"), QUACK_API_BASE);
    assert_eq!(get_api_base("https://quack.icu/dream/abc"), QUACK_API_BASE);
    assert_eq!(get_api_base("https://quack.work/dream/abc"), QUACK_API_BASE);
    assert_eq!(get_api_base("https://purrly.ai/dream/abc"), PURRLY_API_BASE);
    assert_eq!(get_api_base("https://purrly.art/dream/abc"), PURRLY_API_BASE);
    assert_eq!(get_api_base("abc123"), PURRLY_API_BASE);
}

#[test]
fn test_get_url_type() {
    assert_eq!(
        get_url_type("https://purrly.ai/dream/abc"),
        QuackUrlType::Dream
    );
    assert_eq!(
        get_url_type("https://quack.im/discovery/share/abc?type=studio"),
        QuackUrlType::Share
    );
    assert_eq!(
        get_url_type("https://quack.icu/studio/card/abc"),
        QuackUrlType::Share
    );
    assert_eq!(
        get_url_type("https://quack.work/character/abc"),
        QuackUrlType::Share
    );
    assert_eq!(get_url_type("abc123"), QuackUrlType::Unknown);
}

#[test]
fn test_build_avatar_url() {
    assert_eq!(
        build_avatar_url("avatar.png"),
        "https://static.purrly.ai/upload_char_avatar/avatar.png"
    );
    assert_eq!(
        build_avatar_url("https://example.com/avatar.png"),
        "https://example.com/avatar.png"
    );
}

#[test]
fn test_adapter_parse_input() {
    let adapter = QuackAdapter::new();
    assert_eq!(adapter.parse_input("abc123").unwrap(), "abc123");
    assert_eq!(
        adapter
            .parse_input("https://purrly.ai/dream/abc123")
            .unwrap(),
        "abc123"
    );
    assert_eq!(
        adapter
            .parse_input("https://quack.im/studio/card/abc123")
            .unwrap(),
        "abc123"
    );
}

#[test]
fn test_format_attrs() {
    let attrs = vec![
        attr(Some("Age"), None, Some("25"), Some(true)),
        attr(Some("Hidden"), None, Some("secret"), Some(false)),
        attr(Some("Height"), None, Some("170cm"), None),
    ];

    let result = format_attrs(&attrs, true);
    assert_eq!(result, "[Age: 25]\n[Height: 170cm]");

    let result_all = format_attrs(&attrs, false);
    assert_eq!(result_all, "[Age: 25]\n[Hidden: secret]\n[Height: 170cm]");
}

#[test]
fn test_format_hidden_attrs() {
    let attrs = vec![
        attr(Some("Age"), None, Some("25"), Some(true)),
        attr(Some("Hidden"), None, Some("secret"), Some(false)),
    ];

    let result = format_hidden_attrs(&attrs);
    assert_eq!(result, "[Hidden: secret]");
}

#[test]
fn test_extract_personality() {
    let attrs = vec![
        attr(Some("Age"), None, Some("25"), Some(true)),
        attr(Some("Personality"), None, Some("cheerful and kind"), Some(true)),
    ];

    assert_eq!(extract_personality(&attrs), "cheerful and kind");
}

#[test]
fn test_map_lorebook_entry_selective() {
    let mut entry_with_secondary = QuackLorebookEntry::empty();
    entry_with_secondary.name = Some("Test Entry".to_string());
    entry_with_secondary.keys = Some("key1, key2".to_string());
    entry_with_secondary.secondary_keys = Some("sec1, sec2".to_string());
    entry_with_secondary.content = Some("Test content".to_string());

    let mapped = map_lorebook_entry(&entry_with_secondary, 0);
    assert_eq!(mapped.selective, Some(true));
    assert_eq!(mapped.keys, vec!["key1", "key2"]);
    assert_eq!(mapped.secondary_keys, vec!["sec1", "sec2"]);

    let mut entry_without_secondary = QuackLorebookEntry::empty();
    entry_without_secondary.name = Some("Test Entry".to_string());
    entry_without_secondary.keys = Some("key1, key2".to_string());
    entry_without_secondary.content = Some("Test content".to_string());

    let mapped = map_lorebook_entry(&entry_without_secondary, 0);
    assert_eq!(mapped.selective, Some(false));
}

#[test]
fn test_map_lorebook_entry_constant_empty_keys() {
    let mut entry = QuackLorebookEntry::empty();
    entry.name = Some("Constant Entry".to_string());
    entry.content = Some("Always included content".to_string());
    entry.constant = Some(true);

    let mapped = map_lorebook_entry(&entry, 0);
    assert_eq!(mapped.constant, Some(true));
    assert!(mapped.keys.is_empty());
    assert_eq!(mapped.content, "Always included content");
}

#[test]
fn test_map_lorebook_entry_position() {
    let mut entry_before = QuackLorebookEntry::empty();
    entry_before.position = Some(0);
    entry_before.content = Some("Before".to_string());
    let mapped = map_lorebook_entry(&entry_before, 0);
    assert_eq!(mapped.position, Some("before_char".to_string()));

    let mut entry_after = QuackLorebookEntry::empty();
    entry_after.position = Some(1);
    entry_after.content = Some("After".to_string());
    let mapped = map_lorebook_entry(&entry_after, 0);
    assert_eq!(mapped.position, Some("after_char".to_string()));
}

#[test]
fn test_map_lorebook_entry_out_of_range_position() {
    // the one scenario of the lorebook mapping spelled out end to end
    let mut entry = QuackLorebookEntry::empty();
    entry.name = Some("E".to_string());
    entry.keys = Some("".to_string());
    entry.constant = Some(true);
    entry.content = Some("C".to_string());
    entry.position = Some(2);

    let mapped = map_lorebook_entry(&entry, 0);
    assert!(mapped.keys.is_empty());
    assert_eq!(mapped.content, "C");
    assert_eq!(mapped.constant, Some(true));
    assert_eq!(mapped.selective, Some(false));
    assert_eq!(mapped.position, Some("before_char".to_string()));
    assert_eq!(mapped.insertion_order, 1);
    assert_eq!(mapped.priority, Some(10));
    assert!(mapped.enabled);
}

#[test]
fn test_extract_greetings_html_preservation() {
    let html_content = "<p>Hello <strong>world</strong>!</p>";
    let greetings = vec![QuackGreetingItem {
        value: None,
        content: Some(html_content.to_string()),
        text: None,
    }];

    let (first_mes, _) = extract_greetings(&greetings);
    assert_eq!(first_mes, html_content);
}

#[test]
fn test_map_quack_to_v3_basic() {
    let mut info = QuackCharacterInfo::empty();
    info.name = "Test Character".to_string();
    info.custom_attrs = Some(vec![QuackRawAttr {
        attr: attr(Some("Age"), None, Some("25"), Some(true)),
        decoded: true,
        rest: serde_json::Map::new(),
    }]);

    let card = map_quack_to_v3(&info, &Vec::new(), 1700000000);
    assert_eq!(card.data.name, "Test Character");
    assert!(card.data.tags.contains(&"QuackAI".to_string()));
    assert_eq!(card.spec, "chara_card_v3");
    assert_eq!(card.spec_version, "3.0");
    assert_eq!(card.data.description, "[Age: 25]");
    assert_eq!(card.data.creation_date, Some(1700000000));
}

#[test]
fn test_map_quack_to_v3_tags_always_has_quackai() {
    let mut info = QuackCharacterInfo::empty();
    info.name = "Test".to_string();

    let card = map_quack_to_v3(&info, &Vec::new(), 0);
    assert_eq!(card.data.tags[0], "QuackAI");
}

#[test]
fn test_extract_tags_keeps_existing_quackai_position() {
    let mut info = QuackCharacterInfo::empty();
    info.tags = Some(vec!["One".to_string(), "QuackAI".to_string()]);
    let tags = extract_tags(&info);
    assert_eq!(tags, vec!["One".to_string(), "QuackAI".to_string()]);

    let mut info2 = QuackCharacterInfo::empty();
    info2.tags = Some(vec!["Test".to_string()]);
    let tags2 = extract_tags(&info2);
    assert_eq!(tags2, vec!["QuackAI".to_string(), "Test".to_string()]);
}

#[test]
fn test_collect_all_attrs_order() {
    let mut info = QuackCharacterInfo::empty();
    info.custom_attrs = Some(vec![QuackRawAttr {
        attr: attr(Some("Top"), None, Some("1"), Some(true)),
        decoded: true,
        rest: serde_json::Map::new(),
    }]);
    info.char_list = Some(vec![QuackCharListItem {
        name: Some("C".to_string()),
        attrs: Some(vec![attr(Some("A"), None, Some("2"), Some(true))]),
        advise_attrs: Some(vec![attr(Some("B"), None, Some("3"), Some(true))]),
        custom_attrs: Some(vec![attr(Some("C"), None, Some("4"), Some(true))]),
        prompt: None,
        picture: None,
        extra: serde_json::Map::new(),
    }]);

    let all = collect_all_attrs(&info);
    let labels: Vec<_> = all.iter().map(|a| a.label.clone().unwrap()).collect();
    assert_eq!(labels, vec!["Top", "A", "B", "C"]);
}

#[test]
fn test_hidden_attr_labels_dedupe() {
    let mut info = QuackCharacterInfo::empty();
    info.custom_attrs = Some(vec![
        QuackRawAttr {
            attr: attr(Some("X"), None, Some(""), Some(false)),
            decoded: true,
            rest: serde_json::Map::new(),
        },
        QuackRawAttr {
            attr: attr(Some("X"), None, Some(""), Some(false)),
            decoded: true,
            rest: serde_json::Map::new(),
        },
    ]);
    info.char_list = Some(vec![QuackCharListItem {
        name: None,
        attrs: Some(vec![attr(None, Some("Y"), Some(""), Some(false))]),
        advise_attrs: None,
        custom_attrs: None,
        prompt: None,
        picture: None,
        extra: serde_json::Map::new(),
    }]);

    assert!(has_empty_hidden_settings(&info));
    let labels = get_hidden_attr_labels(&info);
    assert_eq!(labels, vec!["X".to_string(), "Y".to_string()]);
}

#[test]
fn test_system_prompt_appends_hidden_block() {
    let mut info = QuackCharacterInfo::empty();
    info.name = "N".to_string();
    info.system_prompt = Some("Base".to_string());
    info.custom_attrs = Some(vec![QuackRawAttr {
        attr: attr(Some("Hidden"), None, Some("secret"), Some(false)),
        decoded: true,
        rest: serde_json::Map::new(),
    }]);

    let card = map_quack_to_v3(&info, &Vec::new(), 0);
    assert_eq!(card.data.system_prompt, "Base\n\n[Hidden: secret]");
}

#[test]
fn test_greeting_precedence_and_studio_merge() {
    let mut info = QuackCharacterInfo::empty();
    info.name = "N".to_string();
    info.prologue = Some(arcaferry::quack::QuackPrologue {
        greetings: Some(vec![
            QuackGreetingItem { value: Some("first".into()), content: None, text: None },
            QuackGreetingItem { value: Some("alt1".into()), content: None, text: None },
        ]),
    });
    info.chat_info = Some(arcaferry::quack::QuackChatInfo {
        sid: None,
        cid: None,
        index: None,
        origin_sid: None,
        char_mes_example: None,
        char_creator_notes: None,
        studio_prologue: Some(arcaferry::quack::QuackPrologue {
            greetings: Some(vec![
                QuackGreetingItem { value: Some("sfirst".into()), content: None, text: None },
                QuackGreetingItem { value: Some("alt1".into()), content: None, text: None },
                QuackGreetingItem { value: Some("alt2".into()), content: None, text: None },
                QuackGreetingItem { value: Some("first".into()), content: None, text: None },
            ]),
        }),
        extra: serde_json::Map::new(),
    });

    let card = map_quack_to_v3(&info, &Vec::new(), 0);
    assert_eq!(card.data.first_mes, "first");
    // alt1 deduplicated, "first" deduplicated against first_mes,
    // alt2 appended
    assert_eq!(card.data.alternate_greetings, vec!["alt1".to_string(), "alt2".to_string()]);
}
