//! Character Card V3: the target schema.
//!
//! A versioned envelope `{spec: "chara_card_v3", spec_version: "3.0",
//! data}`.  Unknown JSON keys of upstream data ride along in opaque
//! extension bags so that serialization preserves them.

use vstd::prelude::*;
use crate::outside::{ExtBag, new_ext_bag};

verus! {

/// One lorebook entry of a card.
#[derive(Debug)]
pub struct LorebookEntry {
    pub keys: Vec<String>,
    pub secondary_keys: Vec<String>,
    pub content: String,
    pub enabled: bool,
    /// 1-based dense position of the entry.
    pub insertion_order: i32,
    pub case_sensitive: Option<bool>,
    pub use_regex: bool,
    pub constant: Option<bool>,
    pub name: Option<String>,
    pub priority: Option<i32>,
    pub id: Option<i64>,
    pub comment: Option<String>,
    pub selective: Option<bool>,
    /// `"before_char"` or `"after_char"`.
    pub position: Option<String>,
    /// Unknown upstream keys, preserved verbatim.
    pub extensions: ExtBag,
}

/// An embedded lorebook.
#[derive(Debug)]
pub struct Lorebook {
    pub name: String,
    pub description: String,
    pub scan_depth: Option<i32>,
    pub token_budget: Option<i32>,
    pub recursive_scanning: Option<bool>,
    pub entries: Vec<LorebookEntry>,
    pub extensions: ExtBag,
}

/// An embedded asset reference.
#[derive(Debug, Clone)]
pub struct Asset {
    pub asset_type: String,
    pub uri: String,
    pub name: String,
    pub ext: String,
}

/// The card body.
#[derive(Debug)]
pub struct CharacterCardData {
    pub name: String,
    pub description: String,
    pub personality: String,
    pub scenario: String,
    pub first_mes: String,
    pub mes_example: String,
    pub alternate_greetings: Vec<String>,
    pub system_prompt: String,
    pub post_history_instructions: String,
    pub character_book: Option<Lorebook>,
    pub creator: String,
    pub creator_notes: String,
    pub tags: Vec<String>,
    pub character_version: String,
    pub creation_date: Option<i64>,
    pub modification_date: Option<i64>,
    pub assets: Option<Vec<Asset>>,
    pub nickname: Option<String>,
    pub source: Option<Vec<String>>,
    pub group_only_greetings: Vec<String>,
    pub extensions: ExtBag,
}

/// The versioned envelope.
#[derive(Debug)]
pub struct CharacterCardV3 {
    pub spec: String,
    pub spec_version: String,
    pub data: CharacterCardData,
}

impl CharacterCardData {
    /// A body with every field empty or absent.
    pub fn empty() -> (r: Self)
        ensures
            r.name@ == Seq::<char>::empty(),
            r.description@ == Seq::<char>::empty(),
            r.personality@ == Seq::<char>::empty(),
            r.scenario@ == Seq::<char>::empty(),
            r.first_mes@ == Seq::<char>::empty(),
            r.mes_example@ == Seq::<char>::empty(),
            r.alternate_greetings@ == Seq::<String>::empty(),
            r.system_prompt@ == Seq::<char>::empty(),
            r.post_history_instructions@ == Seq::<char>::empty(),
            r.character_book is None,
            r.creator@ == Seq::<char>::empty(),
            r.creator_notes@ == Seq::<char>::empty(),
            r.tags@ == Seq::<String>::empty(),
            r.character_version@ == Seq::<char>::empty(),
            r.creation_date is None,
            r.modification_date is None,
            r.assets is None,
            r.nickname is None,
            r.source is None,
            r.group_only_greetings@ == Seq::<String>::empty(),
    {
        CharacterCardData {
            name: String::new(),
            description: String::new(),
            personality: String::new(),
            scenario: String::new(),
            first_mes: String::new(),
            mes_example: String::new(),
            alternate_greetings: Vec::new(),
            system_prompt: String::new(),
            post_history_instructions: String::new(),
            character_book: None,
            creator: String::new(),
            creator_notes: String::new(),
            tags: Vec::new(),
            character_version: String::new(),
            creation_date: None,
            modification_date: None,
            assets: None,
            nickname: None,
            source: None,
            group_only_greetings: Vec::new(),
            extensions: new_ext_bag(),
        }
    }
}

impl CharacterCardV3 {
    /// A card with the given name and every other field defaulted.
    pub fn new(name: String) -> (r: Self)
        ensures
            r.spec@ == "chara_card_v3"@,
            r.spec_version@ == "3.0"@,
            r.data.name@ == name@,
    {
        let mut data = CharacterCardData::empty();
        data.name = name;
        CharacterCardV3 {
            spec: String::from_str("chara_card_v3"),
            spec_version: String::from_str("3.0"),
            data,
        }
    }
}

} // verus!
