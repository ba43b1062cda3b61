//! The acquisition protocol as a state machine.
//!
//! Every upstream call of a fetch is an action the caller performs;
//! its outcome comes back as an event.  The machine decides the next
//! call: share info directly, or chat info first for dream URLs; a
//! chat session is created at most once, when placeholder lorebooks or
//! empty hidden attributes demand it and no chat ids are at hand; the
//! lorebook endpoint is the last resort.  The caller loops until the
//! action is to finish or to fail.

use vstd::prelude::*;
use crate::error::ArcaferryError;
use crate::quack::{
    QuackCharacterInfo, QuackLorebookEntry, QuackLorebookWrapper, QuackUrlType,
    flatten_books, flatten_books_exec_pub, has_empty_hidden_spec, has_empty_hidden_settings,
    has_placeholder_lorebook, has_placeholder_spec, is_placeholder_entries,
    is_placeholder_entries_spec,
};
use crate::strutil::{concat2, dec_chars_int, i64_to_string};

verus! {

/// Where the flow stands: which reply it waits for.
#[derive(Debug, Clone, Copy, PartialEq, Eq, Structural)]
pub enum FetchPhase {
    AwaitChatInfo,
    AwaitShareInfo,
    AwaitInteract,
    AwaitPersona,
    AwaitPreset,
    AwaitChatCreate,
    AwaitChatRefetch,
    AwaitLorebook,
    Done,
    Failed,
}

/// The body of a chat-creation call.
#[derive(Debug)]
pub struct ChatCreatePlan {
    pub cid: String,
    pub chat_type: String,
    pub name: String,
    pub persona_name: String,
    pub preset: String,
}

/// What a chat-creation reply carries.
#[derive(Debug)]
pub struct ChatCreated {
    pub cid: String,
    pub index: String,
    pub characterbooks: Option<Vec<QuackLorebookWrapper>>,
}

/// What a finished fetch hands back.
#[derive(Debug)]
pub struct FetchOutput {
    pub info: QuackCharacterInfo,
    pub entries: Vec<QuackLorebookEntry>,
    pub chat_index: Option<String>,
}

/// The next upstream call, or the end of the flow.
#[derive(Debug)]
pub enum FetchAction {
    /// GET chat info by index.
    GetChatInfo(String),
    /// GET share info by sid.
    GetShareInfo(String),
    /// POST interact-card with the given cid and type `studio`.
    PostInteractCard(String),
    /// GET the persona list (best effort).
    GetPersonaList,
    /// GET the preset name list (best effort).
    GetPresetList,
    /// POST chat creation.
    PostChatCreate(ChatCreatePlan),
    /// GET the lorebook by chat index and cid (best effort).
    GetLorebook(String, String),
    /// The fetch is complete.
    Finish(FetchOutput),
    /// The fetch failed.
    Fail(ArcaferryError),
}

/// The outcome of the call the flow waited for.
#[derive(Debug)]
pub enum FetchEvent {
    ChatInfo(Result<QuackCharacterInfo, ArcaferryError>),
    ShareInfo(Result<QuackCharacterInfo, ArcaferryError>),
    Interacted(Result<QuackCharacterInfo, ArcaferryError>),
    PersonaName(Option<String>),
    PresetName(Option<String>),
    ChatCreationDone(Result<ChatCreated, ArcaferryError>),
    ChatRefetched(Result<QuackCharacterInfo, ArcaferryError>),
    LorebookFetched(Result<Vec<QuackLorebookEntry>, ArcaferryError>),
}

/// The flow's state between calls.
#[derive(Debug)]
pub struct FetchFlow {
    pub phase: FetchPhase,
    pub id: String,
    pub share_id: String,
    pub index: String,
    pub cid: String,
    pub studio_cid: String,
    pub persona: String,
    pub info: Option<QuackCharacterInfo>,
    pub entries: Vec<QuackLorebookEntry>,
    pub needs_lorebook: bool,
    pub needs_hidden: bool,
}

/// The adopted entries of a book list: the flattened entries, unless
/// they hold a placeholder, in which case nothing is adopted.
pub open spec fn adopted_entries(books: Option<Vec<QuackLorebookWrapper>>) -> Seq<
    QuackLorebookEntry,
> {
    let flat = flatten_books(books);
    if is_placeholder_entries_spec(flat) {
        Seq::empty()
    } else {
        flat
    }
}

fn adopt_books(books: &Option<Vec<QuackLorebookWrapper>>) -> (r: Vec<QuackLorebookEntry>)
    ensures
        r@ == adopted_entries(*books),
{
    let flat = flatten_books_exec_pub(books);
    if is_placeholder_entries(&flat) {
        Vec::new()
    } else {
        flat
    }
}

/// The id string of a character payload: `sid`, else `cid`, else
/// empty.
pub open spec fn sid_or_cid(info: QuackCharacterInfo) -> Seq<char> {
    match info.sid {
        Some(s) => s@,
        None => match info.cid {
            Some(c) => c@,
            None => Seq::<char>::empty(),
        },
    }
}

fn sid_or_cid_exec(info: &QuackCharacterInfo) -> (r: String)
    ensures
        r@ == sid_or_cid(*info),
{
    match &info.sid {
        Some(s) => s.clone(),
        None => match &info.cid {
            Some(c) => c.clone(),
            None => String::new(),
        },
    }
}

/// Starts a fetch: dream inputs resolve the chat info first, share
/// inputs and raw ids go straight to share info.
pub fn start_fetch(id: String, url_type: QuackUrlType) -> (r: (FetchFlow, FetchAction))
    ensures
        r.0.id@ == id@,
        r.0.entries@.len() == 0,
        url_type == QuackUrlType::Dream ==> r.0.phase == FetchPhase::AwaitChatInfo && match r.1 {
            FetchAction::GetChatInfo(i) => i@ == id@,
            _ => false,
        },
        url_type != QuackUrlType::Dream ==> r.0.phase == FetchPhase::AwaitShareInfo
            && r.0.share_id@ == id@ && match r.1 {
            FetchAction::GetShareInfo(s) => s@ == id@,
            _ => false,
        },
{
    let flow = FetchFlow {
        phase: if url_type == QuackUrlType::Dream {
            FetchPhase::AwaitChatInfo
        } else {
            FetchPhase::AwaitShareInfo
        },
        id: id.clone(),
        share_id: if url_type == QuackUrlType::Dream {
            String::new()
        } else {
            id.clone()
        },
        index: String::new(),
        cid: String::new(),
        studio_cid: String::new(),
        persona: String::new(),
        info: None,
        entries: Vec::new(),
        needs_lorebook: false,
        needs_hidden: false,
    };
    let action = if url_type == QuackUrlType::Dream {
        FetchAction::GetChatInfo(id)
    } else {
        FetchAction::GetShareInfo(id)
    };
    (flow, action)
}

/// Whether a chat session must be opened: something is missing and no
/// chat ids are at hand.
pub open spec fn must_create_chat(
    needs_lorebook: bool,
    needs_hidden: bool,
    index: Seq<char>,
    cid: Seq<char>,
) -> bool {
    (needs_lorebook || needs_hidden) && index.len() == 0 && cid.len() == 0
}

/// Whether the lorebook endpoint is still worth calling.
pub open spec fn should_fetch_lorebook(
    needs_lorebook: bool,
    entries: Seq<QuackLorebookEntry>,
    index: Seq<char>,
    cid: Seq<char>,
) -> bool {
    needs_lorebook && entries.len() == 0 && cid.len() > 0 && index.len() > 0
}

fn finish_or_lorebook(flow: FetchFlow) -> (r: (FetchFlow, FetchAction))
    ensures
        should_fetch_lorebook(flow.needs_lorebook, flow.entries@, flow.index@, flow.cid@) ==> r.0.phase
            == FetchPhase::AwaitLorebook && r.0.entries@ == flow.entries@ && r.0.info
            == flow.info && match r.1 {
            FetchAction::GetLorebook(i, c) => i@ == flow.index@ && c@ == flow.cid@,
            _ => false,
        },
        !should_fetch_lorebook(flow.needs_lorebook, flow.entries@, flow.index@, flow.cid@)
            ==> match flow.info {
            Some(info) => r.0.phase == FetchPhase::Done && match r.1 {
                FetchAction::Finish(out) => {
                    &&& out.info == info
                    &&& out.entries@ == flow.entries@
                    &&& (flow.index@.len() > 0 ==> match out.chat_index {
                        Some(i) => i@ == flow.index@,
                        None => false,
                    })
                    &&& (flow.index@.len() == 0 ==> out.chat_index is None)
                },
                _ => false,
            },
            None => r.0.phase == FetchPhase::Failed && r.1 is Fail,
        },
        r.0.needs_lorebook == flow.needs_lorebook,
        r.0.needs_hidden == flow.needs_hidden,
        r.0.index@ == flow.index@,
        r.0.cid@ == flow.cid@,
{
    let mut flow = flow;
    if flow.needs_lorebook && flow.entries.len() == 0 && flow.cid.as_str().unicode_len() > 0
        && flow.index.as_str().unicode_len() > 0 {
        flow.phase = FetchPhase::AwaitLorebook;
        let action = FetchAction::GetLorebook(flow.index.clone(), flow.cid.clone());
        (flow, action)
    } else {
        match flow.info {
            Some(info) => {
                let chat_index: Option<String> = if flow.index.as_str().unicode_len() > 0 {
                    Some(flow.index.clone())
                } else {
                    None
                };
                let mut entries: Vec<QuackLorebookEntry> = Vec::new();
                core::mem::swap(&mut entries, &mut flow.entries);
                flow.phase = FetchPhase::Done;
                flow.info = None;
                let out = FetchOutput { info, entries, chat_index };
                (flow, FetchAction::Finish(out))
            },
            None => {
                flow.phase = FetchPhase::Failed;
                (
                    flow,
                    FetchAction::Fail(
                        ArcaferryError::ValidationError(
                            String::from_str("fetch flow finished without data"),
                        ),
                    ),
                )
            },
        }
    }
}

/// Advances the flow on the outcome of the awaited call.  `now_ms`
/// stamps the unique chat name when a chat is created.
pub fn fetch_step(flow: FetchFlow, event: FetchEvent, now_ms: i64) -> (r: (FetchFlow, FetchAction))
    ensures
        // dream path: chat info resolves the origin sid or fails
        flow.phase == FetchPhase::AwaitChatInfo ==> match event {
            FetchEvent::ChatInfo(Ok(ci)) => {
                let origin = match ci.origin_sid {
                    Some(o) => o@,
                    None => Seq::<char>::empty(),
                };
                &&& origin.len() == 0 ==> r.0.phase == FetchPhase::Failed && match r.1 {
                    FetchAction::Fail(e) => e is MissingField,
                    _ => false,
                }
                &&& origin.len() > 0 ==> {
                    &&& r.0.phase == FetchPhase::AwaitShareInfo
                    &&& r.0.share_id@ == origin
                    &&& r.0.index@ == flow.id@
                    &&& r.0.cid@ == sid_or_cid(ci)
                    &&& r.0.entries@ == adopted_entries(ci.characterbooks)
                    &&& match r.1 {
                        FetchAction::GetShareInfo(s) => s@ == origin,
                        _ => false,
                    }
                }
            },
            FetchEvent::ChatInfo(Err(e)) => r.0.phase == FetchPhase::Failed && match r.1 {
                FetchAction::Fail(e2) => e2 == e,
                _ => false,
            },
            _ => true,
        },
        // share info computes the needs and decides on chat creation
        flow.phase == FetchPhase::AwaitShareInfo ==> match event {
            FetchEvent::ShareInfo(Ok(info)) => {
                let nl = has_placeholder_spec(info);
                let nh = has_empty_hidden_spec(info);
                &&& r.0.needs_lorebook == nl
                &&& r.0.needs_hidden == nh
                &&& must_create_chat(nl, nh, flow.index@, flow.cid@) ==> r.0.phase
                    == FetchPhase::AwaitInteract && match r.1 {
                    FetchAction::PostInteractCard(c) => c@ == flow.share_id@,
                    _ => false,
                }
                &&& !must_create_chat(nl, nh, flow.index@, flow.cid@)
                    && should_fetch_lorebook(nl, flow.entries@, flow.index@, flow.cid@)
                    ==> r.0.phase == FetchPhase::AwaitLorebook
                &&& !must_create_chat(nl, nh, flow.index@, flow.cid@)
                    && !should_fetch_lorebook(nl, flow.entries@, flow.index@, flow.cid@)
                    ==> r.0.phase == FetchPhase::Done && match r.1 {
                    FetchAction::Finish(out) => out.info == info && out.entries@ == flow.entries@,
                    _ => false,
                }
            },
            FetchEvent::ShareInfo(Err(e)) => r.0.phase == FetchPhase::Failed && match r.1 {
                FetchAction::Fail(e2) => e2 == e,
                _ => false,
            },
            _ => true,
        },
        // interact-card yields the studio cid or fails
        flow.phase == FetchPhase::AwaitInteract ==> match event {
            FetchEvent::Interacted(Ok(card)) => {
                &&& sid_or_cid(card).len() == 0 ==> r.0.phase == FetchPhase::Failed && match r.1 {
                    FetchAction::Fail(e) => e is MissingField,
                    _ => false,
                }
                &&& sid_or_cid(card).len() > 0 ==> r.0.phase == FetchPhase::AwaitPersona
                    && r.0.studio_cid@ == sid_or_cid(card) && r.1 is GetPersonaList
            },
            FetchEvent::Interacted(Err(e)) => r.0.phase == FetchPhase::Failed && match r.1 {
                FetchAction::Fail(e2) => e2 == e,
                _ => false,
            },
            _ => true,
        },
        // the persona and preset lookups are best-effort with defaults
        flow.phase == FetchPhase::AwaitPersona ==> match event {
            FetchEvent::PersonaName(p) => {
                &&& r.0.phase == FetchPhase::AwaitPreset
                &&& r.0.persona@ == match p {
                    Some(name) => name@,
                    None => "momo"@,
                }
                &&& r.1 is GetPresetList
            },
            _ => true,
        },
        flow.phase == FetchPhase::AwaitPreset ==> match event {
            FetchEvent::PresetName(p) => {
                &&& r.0.phase == FetchPhase::AwaitChatCreate
                &&& match r.1 {
                    FetchAction::PostChatCreate(plan) => {
                        &&& plan.cid@ == flow.studio_cid@
                        &&& plan.chat_type@ == "studio"@
                        &&& plan.name@ == "ferry_"@ + dec_chars_int(now_ms as int)
                        &&& plan.persona_name@ == flow.persona@
                        &&& plan.preset@ == match p {
                            Some(name) => name@,
                            None => "Quack \u{901a}\u{7528}\u{9884}\u{8bbe}"@,
                        }
                    },
                    _ => false,
                }
            },
            _ => true,
        },
        // chat creation adopts the returned ids and books
        flow.phase == FetchPhase::AwaitChatCreate ==> match event {
            FetchEvent::ChatCreationDone(Ok(chat)) => {
                let new_entries = match chat.characterbooks {
                    Some(_) => adopted_entries(chat.characterbooks),
                    None => flow.entries@,
                };
                &&& (flow.needs_lorebook && new_entries.len() == 0) ==> {
                    &&& r.0.phase == FetchPhase::AwaitChatRefetch
                    &&& r.0.index@ == chat.index@
                    &&& r.0.cid@ == chat.cid@
                    &&& r.0.entries@ == new_entries
                    &&& match r.1 {
                        FetchAction::GetChatInfo(i) => i@ == chat.index@,
                        _ => false,
                    }
                }
                &&& !(flow.needs_lorebook && new_entries.len() == 0) ==> (r.0.phase
                    == FetchPhase::Done || r.0.phase == FetchPhase::AwaitLorebook || r.0.phase
                    == FetchPhase::Failed)
            },
            FetchEvent::ChatCreationDone(Err(e)) => r.0.phase == FetchPhase::Failed && match r.1 {
                FetchAction::Fail(e2) => e2 == e,
                _ => false,
            },
            _ => true,
        },
        // the refetch is best-effort: books are adopted when present
        flow.phase == FetchPhase::AwaitChatRefetch ==> match event {
            FetchEvent::ChatRefetched(res) => {
                let new_entries = match res {
                    Ok(ci) => match ci.characterbooks {
                        Some(_) => adopted_entries(ci.characterbooks),
                        None => flow.entries@,
                    },
                    Err(_) => flow.entries@,
                };
                match r.1 {
                    FetchAction::Finish(out) => out.entries@ == new_entries,
                    FetchAction::GetLorebook(i, c) => r.0.entries@ == new_entries,
                    FetchAction::Fail(_) => true,
                    _ => false,
                }
            },
            _ => true,
        },
        // the lorebook endpoint is best-effort: non-placeholder data wins
        flow.phase == FetchPhase::AwaitLorebook ==> match event {
            FetchEvent::LorebookFetched(res) => {
                &&& r.0.phase == FetchPhase::Done || r.0.phase == FetchPhase::Failed
                &&& match res {
                    Ok(fetched) => !is_placeholder_entries_spec(fetched@) ==> match r.1 {
                        FetchAction::Finish(out) => out.entries@ == fetched@,
                        _ => true,
                    },
                    Err(_) => true,
                }
            },
            _ => true,
        },
{
    let mut flow = flow;
    match (flow.phase, event) {
        (FetchPhase::AwaitChatInfo, FetchEvent::ChatInfo(Ok(ci))) => {
            let origin: String = match &ci.origin_sid {
                Some(o) => o.clone(),
                None => String::new(),
            };
            if origin.as_str().unicode_len() == 0 {
                flow.phase = FetchPhase::Failed;
                return (
                    flow,
                    FetchAction::Fail(
                        ArcaferryError::MissingField(String::from_str("originSid in chat info")),
                    ),
                );
            }
            flow.entries = adopt_books(&ci.characterbooks);
            flow.cid = sid_or_cid_exec(&ci);
            flow.index = flow.id.clone();
            flow.share_id = origin.clone();
            flow.phase = FetchPhase::AwaitShareInfo;
            (flow, FetchAction::GetShareInfo(origin))
        },
        (FetchPhase::AwaitChatInfo, FetchEvent::ChatInfo(Err(e))) => {
            flow.phase = FetchPhase::Failed;
            (flow, FetchAction::Fail(e))
        },
        (FetchPhase::AwaitShareInfo, FetchEvent::ShareInfo(Ok(info))) => {
            let nl = has_placeholder_lorebook(&info);
            let nh = has_empty_hidden_settings(&info);
            flow.needs_lorebook = nl;
            flow.needs_hidden = nh;
            flow.info = Some(info);
            if (nl || nh) && flow.index.as_str().unicode_len() == 0
                && flow.cid.as_str().unicode_len() == 0 {
                flow.phase = FetchPhase::AwaitInteract;
                let sid = flow.share_id.clone();
                (flow, FetchAction::PostInteractCard(sid))
            } else {
                finish_or_lorebook(flow)
            }
        },
        (FetchPhase::AwaitShareInfo, FetchEvent::ShareInfo(Err(e))) => {
            flow.phase = FetchPhase::Failed;
            (flow, FetchAction::Fail(e))
        },
        (FetchPhase::AwaitInteract, FetchEvent::Interacted(Ok(card))) => {
            let studio_cid = sid_or_cid_exec(&card);
            if studio_cid.as_str().unicode_len() == 0 {
                flow.phase = FetchPhase::Failed;
                return (
                    flow,
                    FetchAction::Fail(
                        ArcaferryError::MissingField(
                            String::from_str("studio cid (sid) from interact-card"),
                        ),
                    ),
                );
            }
            flow.studio_cid = studio_cid;
            flow.phase = FetchPhase::AwaitPersona;
            (flow, FetchAction::GetPersonaList)
        },
        (FetchPhase::AwaitInteract, FetchEvent::Interacted(Err(e))) => {
            flow.phase = FetchPhase::Failed;
            (flow, FetchAction::Fail(e))
        },
        (FetchPhase::AwaitPersona, FetchEvent::PersonaName(p)) => {
            flow.persona = match p {
                Some(name) => name,
                None => String::from_str("momo"),
            };
            flow.phase = FetchPhase::AwaitPreset;
            (flow, FetchAction::GetPresetList)
        },
        (FetchPhase::AwaitPreset, FetchEvent::PresetName(p)) => {
            let preset = match p {
                Some(name) => name,
                None => String::from_str("Quack \u{901a}\u{7528}\u{9884}\u{8bbe}"),
            };
            let stamp = i64_to_string(now_ms);
            let name = concat2("ferry_", stamp.as_str());
            let plan = ChatCreatePlan {
                cid: flow.studio_cid.clone(),
                chat_type: String::from_str("studio"),
                name,
                persona_name: flow.persona.clone(),
                preset,
            };
            flow.phase = FetchPhase::AwaitChatCreate;
            (flow, FetchAction::PostChatCreate(plan))
        },
        (FetchPhase::AwaitChatCreate, FetchEvent::ChatCreationDone(Ok(chat))) => {
            flow.index = chat.index.clone();
            flow.cid = chat.cid.clone();
            match &chat.characterbooks {
                Some(_) => {
                    flow.entries = adopt_books(&chat.characterbooks);
                },
                None => {},
            }
            if flow.needs_lorebook && flow.entries.len() == 0 {
                flow.phase = FetchPhase::AwaitChatRefetch;
                (flow, FetchAction::GetChatInfo(chat.index))
            } else {
                finish_or_lorebook(flow)
            }
        },
        (FetchPhase::AwaitChatCreate, FetchEvent::ChatCreationDone(Err(e))) => {
            flow.phase = FetchPhase::Failed;
            (flow, FetchAction::Fail(e))
        },
        (FetchPhase::AwaitChatRefetch, FetchEvent::ChatRefetched(res)) => {
            match res {
                Ok(ci) => {
                    match &ci.characterbooks {
                        Some(_) => {
                            flow.entries = adopt_books(&ci.characterbooks);
                        },
                        None => {},
                    }
                },
                Err(_) => {},
            }
            finish_or_lorebook(flow)
        },
        (FetchPhase::AwaitLorebook, FetchEvent::LorebookFetched(res)) => {
            match res {
                Ok(fetched) => {
                    if !is_placeholder_entries(&fetched) {
                        flow.entries = fetched;
                    }
                },
                Err(_) => {},
            }
            flow.needs_lorebook = false;
            finish_or_lorebook(flow)
        },
        (_, _) => {
            flow.phase = FetchPhase::Failed;
            (
                flow,
                FetchAction::Fail(
                    ArcaferryError::ValidationError(
                        String::from_str("unexpected fetch event for this phase"),
                    ),
                ),
            )
        },
    }
}

} // verus!
