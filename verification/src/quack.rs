//! Quack/Purrly upstream model, URL handling and the CCv3 mapper.
//!
//! The upstream wire shapes are held as plain data; unknown JSON keys
//! ride in opaque extension bags.  String-or-number identifiers arrive
//! here already rendered as text.

use vstd::prelude::*;
use crate::error::ArcaferryError;
use crate::outside::{ExtBag, url_path_of, url_parse_path};
use crate::strutil::{
    ascii_lower,
    chars_vec,
    concat2,
    contains_seq,
    contains_sub,
    join_seq,
    lower_seq,
    split_char,
    split_seq,
    starts_with_seq,
    starts_with_sub,
    string_from_chars,
    str_eq,
    trim_seq,
    trim_vec,
};

verus! {

pub const PURRLY_API_BASE: &'static str = "https://purrly.ai";

pub const QUACK_API_BASE: &'static str = "https://quack.im";

pub const AVATAR_BASE_URL: &'static str = "https://static.purrly.ai/upload_char_avatar/";

// ---------------------------------------------------------------------------
// Upstream shapes
// ---------------------------------------------------------------------------

/// The wrapped envelope `{code, data, msg}` upstream replies may use.
#[derive(Debug)]
pub struct QuackApiResponse<T> {
    pub code: i32,
    pub data: Option<T>,
    pub msg: Option<String>,
}

/// An upstream attribute; `is_visible == Some(false)` marks a hidden
/// setting.
#[derive(Debug, Clone)]
pub struct QuackAttribute {
    pub label: Option<String>,
    pub name: Option<String>,
    pub value: Option<String>,
    pub is_visible: Option<bool>,
}

impl QuackAttribute {
    /// An equal copy.
    pub fn duplicate(&self) -> (r: Self)
        ensures
            r == *self,
    {
        QuackAttribute {
            label: clone_opt_string(&self.label),
            name: clone_opt_string(&self.name),
            value: clone_opt_string(&self.value),
            is_visible: self.is_visible,
        }
    }
}

/// Copies an optional string; the copy equals the original.
pub fn clone_opt_string(s: &Option<String>) -> (r: Option<String>)
    ensures
        r == *s,
{
    match s {
        Some(x) => Some(x.clone()),
        None => None,
    }
}

/// One element of the top-level raw `custom_attrs` array: the decoded
/// attribute fields plus the untouched remainder of the JSON object.
/// `decoded` is false when the element did not decode as an attribute.
#[derive(Debug)]
pub struct QuackRawAttr {
    pub attr: QuackAttribute,
    pub decoded: bool,
    /// The element's other keys, preserved verbatim.
    pub rest: ExtBag,
}

/// A greeting item: the text lives in `value`, `content` or `text`.
#[derive(Debug, Clone)]
pub struct QuackGreetingItem {
    pub value: Option<String>,
    pub content: Option<String>,
    pub text: Option<String>,
}

/// A bare greeting entry (the older wire shape).
#[derive(Debug, Clone)]
pub struct QuackGreeting {
    pub content: Option<String>,
    pub text: Option<String>,
}

/// The prologue structure carrying greetings.
#[derive(Debug, Clone)]
pub struct QuackPrologue {
    pub greetings: Option<Vec<QuackGreetingItem>>,
}

/// One character of `char_list`.
#[derive(Debug)]
pub struct QuackCharListItem {
    pub name: Option<String>,
    pub attrs: Option<Vec<QuackAttribute>>,
    pub advise_attrs: Option<Vec<QuackAttribute>>,
    pub custom_attrs: Option<Vec<QuackAttribute>>,
    pub prompt: Option<String>,
    pub picture: Option<String>,
    pub extra: ExtBag,
}

/// Nested chat info.
#[derive(Debug)]
pub struct QuackChatInfo {
    pub sid: Option<String>,
    pub cid: Option<String>,
    pub index: Option<String>,
    pub origin_sid: Option<String>,
    pub char_mes_example: Option<String>,
    pub char_creator_notes: Option<String>,
    pub studio_prologue: Option<QuackPrologue>,
    pub extra: ExtBag,
}

/// One upstream lorebook entry; `keys` and `secondary_keys` are
/// comma-separated.
#[derive(Debug)]
pub struct QuackLorebookEntry {
    pub keys: Option<String>,
    pub content: Option<String>,
    pub position: Option<i32>,
    pub constant: Option<bool>,
    pub enabled: Option<bool>,
    pub insertion_order: Option<i32>,
    pub case_sensitive: Option<bool>,
    pub use_regex: Option<bool>,
    pub name: Option<String>,
    pub priority: Option<i32>,
    pub comment: Option<String>,
    pub selective: Option<bool>,
    pub secondary_keys: Option<String>,
    pub extra: ExtBag,
}

impl QuackLorebookEntry {
    /// An entry with every field absent.
    pub fn empty() -> (r: Self)
        ensures
            r.keys is None,
            r.content is None,
            r.position is None,
            r.constant is None,
            r.enabled is None,
            r.insertion_order is None,
            r.case_sensitive is None,
            r.use_regex is None,
            r.name is None,
            r.priority is None,
            r.comment is None,
            r.selective is None,
            r.secondary_keys is None,
    {
        QuackLorebookEntry {
            keys: None,
            content: None,
            position: None,
            constant: None,
            enabled: None,
            insertion_order: None,
            case_sensitive: None,
            use_regex: None,
            name: None,
            priority: None,
            comment: None,
            selective: None,
            secondary_keys: None,
            extra: crate::outside::new_ext_bag(),
        }
    }
}

/// An upstream lorebook wrapper.
#[derive(Debug)]
pub struct QuackLorebookWrapper {
    pub entry_list: Option<Vec<QuackLorebookEntry>>,
    pub name: Option<String>,
    pub extra: ExtBag,
}

/// The character info envelope.
#[derive(Debug)]
pub struct QuackCharacterInfo {
    pub sid: Option<String>,
    pub cid: Option<String>,
    pub index: Option<String>,
    pub origin_sid: Option<String>,
    pub name: String,
    pub description: Option<String>,
    pub personality: Option<String>,
    pub scenario: Option<String>,
    pub first_mes: Option<String>,
    pub mes_example: Option<String>,
    pub system_prompt: Option<String>,
    pub post_history_instructions: Option<String>,
    pub creator: Option<String>,
    pub creator_notes: Option<String>,
    pub author_name: Option<String>,
    pub intro: Option<String>,
    pub picture: Option<String>,
    pub custom_attrs: Option<Vec<QuackRawAttr>>,
    pub greeting: Option<Vec<QuackGreetingItem>>,
    pub char_list: Option<Vec<QuackCharListItem>>,
    pub chat_info: Option<QuackChatInfo>,
    pub characterbooks: Option<Vec<QuackLorebookWrapper>>,
    pub prologue: Option<QuackPrologue>,
    /// The upstream `extra.tags` list, when present.
    pub tags: Option<Vec<String>>,
    pub extra: ExtBag,
}

impl QuackCharacterInfo {
    /// An envelope with every field absent and an empty name.
    pub fn empty() -> (r: Self)
        ensures
            r.name@ == Seq::<char>::empty(),
            r.char_list is None,
            r.custom_attrs is None,
            r.greeting is None,
            r.chat_info is None,
            r.characterbooks is None,
            r.prologue is None,
            r.tags is None,
            r.personality is None,
            r.scenario is None,
            r.first_mes is None,
            r.mes_example is None,
            r.system_prompt is None,
            r.post_history_instructions is None,
            r.creator is None,
            r.creator_notes is None,
            r.author_name is None,
            r.intro is None,
            r.picture is None,
            r.sid is None,
            r.cid is None,
            r.index is None,
            r.origin_sid is None,
            r.description is None,
    {
        QuackCharacterInfo {
            sid: None,
            cid: None,
            index: None,
            origin_sid: None,
            name: String::new(),
            description: None,
            personality: None,
            scenario: None,
            first_mes: None,
            mes_example: None,
            system_prompt: None,
            post_history_instructions: None,
            creator: None,
            creator_notes: None,
            author_name: None,
            intro: None,
            picture: None,
            custom_attrs: None,
            greeting: None,
            char_list: None,
            chat_info: None,
            characterbooks: None,
            prologue: None,
            tags: None,
            extra: crate::outside::new_ext_bag(),
        }
    }
}

// ---------------------------------------------------------------------------
// URL handling
// ---------------------------------------------------------------------------

/// The flavor of an input URL.
#[derive(Debug, Clone, Copy, PartialEq, Eq, Structural)]
pub enum QuackUrlType {
    /// A read-only share/studio/character page: the id is a share sid.
    Share,
    /// A chat page: the id is a chat index.
    Dream,
    /// A raw identifier, treated as a share id.
    Unknown,
}

/// Whether every character is a letter, digit, underscore or hyphen.
pub open spec fn is_id_char(c: char) -> bool {
    ('a' <= c <= 'z') || ('A' <= c <= 'Z') || ('0' <= c <= '9') || c == '_' || c == '-'
}

/// A raw platform identifier: non-empty, id characters only.
pub open spec fn is_raw_id(s: Seq<char>) -> bool {
    s.len() > 0 && forall|i: int| 0 <= i < s.len() ==> is_id_char(#[trigger] s[i])
}

/// Leading empty pieces dropped.
pub open spec fn strip_leading_empty(parts: Seq<Seq<char>>) -> Seq<Seq<char>>
    decreases parts.len(),
{
    if parts.len() > 0 && parts[0].len() == 0 {
        strip_leading_empty(parts.drop_first())
    } else {
        parts
    }
}

/// Trailing empty pieces dropped.
pub open spec fn strip_trailing_empty(parts: Seq<Seq<char>>) -> Seq<Seq<char>>
    decreases parts.len(),
{
    if parts.len() > 0 && parts.last().len() == 0 {
        strip_trailing_empty(parts.drop_last())
    } else {
        parts
    }
}

/// The path segments of a URL path: split at `/`, with the pieces of
/// leading and trailing slashes dropped.
pub open spec fn path_segments(p: Seq<char>) -> Seq<Seq<char>> {
    strip_trailing_empty(strip_leading_empty(split_seq(p, '/')))
}

/// The segment just after the first occurrence of `word` that has a
/// following segment.
pub open spec fn segment_after(parts: Seq<Seq<char>>, word: Seq<char>) -> Option<Seq<char>>
    decreases parts.len(),
{
    if parts.len() < 2 {
        None
    } else if parts[0] == word {
        Some(parts[1])
    } else {
        segment_after(parts.drop_first(), word)
    }
}

/// The id a URL path yields: the segment after `dream`, `chat`,
/// `share`, `character` or `card`, tried in that order; else a single
/// non-empty segment.
pub open spec fn url_extract_spec(parts: Seq<Seq<char>>) -> Option<Seq<char>> {
    if segment_after(parts, "dream"@) is Some {
        segment_after(parts, "dream"@)
    } else if segment_after(parts, "chat"@) is Some {
        segment_after(parts, "chat"@)
    } else if segment_after(parts, "share"@) is Some {
        segment_after(parts, "share"@)
    } else if segment_after(parts, "character"@) is Some {
        segment_after(parts, "character"@)
    } else if segment_after(parts, "card"@) is Some {
        segment_after(parts, "card"@)
    } else if parts.len() == 1 && parts[0].len() > 0 {
        Some(parts[0])
    } else {
        None
    }
}

/// Whether the trimmed input looks like a platform URL.
pub open spec fn looks_like_url(t: Seq<char>) -> bool {
    contains_seq(lower_seq(t), "purrly"@) || contains_seq(lower_seq(t), "quack"@)
        || starts_with_seq(t, "http"@)
}

/// The id `extract_quack_id` returns: from the URL path when the input
/// looks like a URL and parses, else the input itself when it is a raw
/// id.
pub open spec fn extract_id_spec(s: Seq<char>) -> Option<Seq<char>> {
    let t = trim_seq(s);
    let from_url: Option<Seq<char>> = if looks_like_url(t) {
        match url_path_of(t) {
            Some(p) => url_extract_spec(path_segments(p)),
            None => None,
        }
    } else {
        None
    };
    match from_url {
        Some(id) => Some(id),
        None => if is_raw_id(t) {
            Some(t)
        } else {
            None
        },
    }
}

fn drop_empty_edges(parts: Vec<Vec<char>>) -> (r: Vec<Vec<char>>)
    ensures
        r.deep_view() == strip_trailing_empty(strip_leading_empty(parts.deep_view())),
{
    let mut lo: usize = 0;
    let n = parts.len();
    proof {
        assert(parts.deep_view().skip(0) =~= parts.deep_view());
    }
    while lo < n && parts[lo].len() == 0
        invariant
            n == parts@.len(),
            lo <= n,
            strip_leading_empty(parts.deep_view()) == strip_leading_empty(
                parts.deep_view().skip(lo as int),
            ),
        decreases n - lo,
    {
        proof {
            let cur = parts.deep_view().skip(lo as int);
            assert(cur[0] == parts.deep_view()[lo as int]);
            assert(parts.deep_view()[lo as int] == parts@[lo as int]@);
            assert(cur.drop_first() =~= parts.deep_view().skip(lo + 1));
        }
        lo = lo + 1;
    }
    proof {
        let cur = parts.deep_view().skip(lo as int);
        if lo < n {
            assert(cur[0] == parts@[lo as int]@);
            assert(cur[0].len() > 0);
        }
        assert(strip_leading_empty(cur) == cur);
    }
    let mut hi: usize = n;
    proof {
        assert(parts.deep_view().skip(lo as int).take(n - lo) =~= parts.deep_view().skip(
            lo as int,
        ));
    }
    while hi > lo && parts[hi - 1].len() == 0
        invariant
            n == parts@.len(),
            lo <= hi <= n,
            strip_leading_empty(parts.deep_view()) == parts.deep_view().skip(lo as int),
            strip_trailing_empty(parts.deep_view().skip(lo as int)) == strip_trailing_empty(
                parts.deep_view().skip(lo as int).take(hi - lo),
            ),
        decreases hi,
    {
        proof {
            let cur = parts.deep_view().skip(lo as int).take(hi - lo);
            assert(cur.last() == parts.deep_view()[hi - 1]);
            assert(parts.deep_view()[hi - 1] == parts@[hi - 1]@);
            assert(cur.drop_last() =~= parts.deep_view().skip(lo as int).take(hi - 1 - lo));
        }
        hi = hi - 1;
    }
    proof {
        let cur = parts.deep_view().skip(lo as int).take(hi - lo);
        if hi > lo {
            assert(cur.last() == parts@[hi - 1]@);
            assert(cur.last().len() > 0);
        }
        assert(strip_trailing_empty(cur) == cur);
    }
    let mut out: Vec<Vec<char>> = Vec::new();
    let mut i: usize = lo;
    while i < hi
        invariant
            lo <= i <= hi <= parts@.len(),
            out.deep_view() =~= parts.deep_view().subrange(lo as int, i as int),
        decreases hi - i,
    {
        let mut piece: Vec<char> = Vec::new();
        let m = parts[i].len();
        let mut j: usize = 0;
        while j < m
            invariant
                i < parts@.len(),
                m == parts@[i as int]@.len(),
                j <= m,
                piece@ =~= parts@[i as int]@.take(j as int),
            decreases m - j,
        {
            piece.push(parts[i][j]);
            j = j + 1;
        }
        proof {
            assert(piece@ =~= parts@[i as int]@);
        }
        let ghost pre = out.deep_view();
        out.push(piece);
        proof {
            assert(out.deep_view() =~= pre + seq![parts.deep_view()[i as int]]) by {
                assert forall|k: int|
                    0 <= k < out.deep_view().len() implies out.deep_view()[k] == (pre + seq![
                        parts.deep_view()[i as int],
                    ])[k] by {
                    assert(out.deep_view()[k] == out@[k].deep_view());
                }
            }
        }
        i = i + 1;
        proof {
            assert(out.deep_view() =~= parts.deep_view().subrange(lo as int, i as int));
        }
    }
    proof {
        assert(parts.deep_view().subrange(lo as int, hi as int) =~= parts.deep_view().skip(
            lo as int,
        ).take(hi - lo));
    }
    out
}

fn segment_after_exec(parts: &Vec<Vec<char>>, word: &str) -> (r: Option<String>)
    ensures
        match r {
            Some(id) => segment_after(parts.deep_view(), word@) == Some(id@),
            None => segment_after(parts.deep_view(), word@) is None,
        },
{
    let w = chars_vec(word);
    let n = parts.len();
    if n < 2 {
        return None;
    }
    let mut i: usize = 0;
    proof {
        assert(parts.deep_view().skip(0) =~= parts.deep_view());
    }
    while i + 1 < n
        invariant
            n == parts@.len(),
            n >= 2,
            i + 1 <= n,
            w@ == word@,
            segment_after(parts.deep_view(), word@) == segment_after(
                parts.deep_view().skip(i as int),
                word@,
            ),
        decreases n - i,
    {
        proof {
            let cur = parts.deep_view().skip(i as int);
            assert(cur[0] == parts@[i as int]@);
            assert(cur[1] == parts@[i + 1]@);
            assert(cur.drop_first() =~= parts.deep_view().skip(i + 1));
        }
        if crate::strutil::chars_eq(&parts[i], &w) {
            return Some(string_from_chars(&parts[i + 1]));
        }
        i = i + 1;
    }
    proof {
        let cur = parts.deep_view().skip(i as int);
        assert(cur.len() < 2);
    }
    None
}

/// Extracts the platform id from a share/dream/character/card URL, a
/// single-segment URL, or a raw id of letters, digits, `_` and `-`.
pub fn extract_quack_id(input: &str) -> (r: Result<String, ArcaferryError>)
    ensures
        match r {
            Ok(id) => extract_id_spec(input@) == Some(id@),
            Err(e) => extract_id_spec(input@) is None && match e {
                ArcaferryError::InvalidUrl(m) => if trim_seq(input@).len() == 0 {
                    m@ == "Empty input"@
                } else {
                    m@ == "Cannot extract ID from: "@ + input@
                },
                _ => false,
            },
        },
{
    let chars = chars_vec(input);
    let trimmed = trim_vec(&chars);
    if trimmed.len() == 0 {
        proof {
            reveal_strlit("purrly");
            reveal_strlit("quack");
            reveal_strlit("http");
            assert(lower_seq(trim_seq(input@)).len() == 0);
            assert(!looks_like_url(trim_seq(input@)));
            assert(!is_raw_id(trim_seq(input@)));
        }
        return Err(ArcaferryError::InvalidUrl(String::from_str("Empty input")));
    }
    let lowered = ascii_lower(&trimmed);
    let purrly = chars_vec("purrly");
    let quack = chars_vec("quack");
    let http = chars_vec("http");
    let looks = contains_sub(&lowered, &purrly) || contains_sub(&lowered, &quack)
        || starts_with_sub(&trimmed, &http);
    let mut from_url: Option<String> = None;
    if looks {
        let tstr = string_from_chars(&trimmed);
        match url_parse_path(tstr.as_str()) {
            Some(path) => {
                let pchars = chars_vec(path.as_str());
                let raw_parts = split_char(&pchars, '/');
                let parts = drop_empty_edges(raw_parts);
                proof {
                    assert(parts.deep_view() == path_segments(path@));
                }
                from_url = match segment_after_exec(&parts, "dream") {
                    Some(id) => Some(id),
                    None => match segment_after_exec(&parts, "chat") {
                        Some(id) => Some(id),
                        None => match segment_after_exec(&parts, "share") {
                            Some(id) => Some(id),
                            None => match segment_after_exec(&parts, "character") {
                                Some(id) => Some(id),
                                None => match segment_after_exec(&parts, "card") {
                                    Some(id) => Some(id),
                                    None => {
                                        if parts.len() == 1 && parts[0].len() > 0 {
                                            proof {
                                                assert(parts.deep_view()[0] == parts@[0]@);
                                            }
                                            Some(string_from_chars(&parts[0]))
                                        } else {
                                            None
                                        }
                                    },
                                },
                            },
                        },
                    },
                };
            },
            None => {},
        }
    }
    match from_url {
        Some(id) => Ok(id),
        None => {
            let mut all_id_chars = trimmed.len() > 0;
            let mut i: usize = 0;
            let n = trimmed.len();
            while i < n
                invariant
                    n == trimmed@.len(),
                    i <= n,
                    all_id_chars == (n > 0 && forall|k: int|
                        0 <= k < i ==> is_id_char(#[trigger] trimmed@[k])),
                decreases n - i,
            {
                let c = trimmed[i];
                let ok = ('a' <= c && c <= 'z') || ('A' <= c && c <= 'Z') || ('0' <= c && c <= '9')
                    || c == '_' || c == '-';
                if !ok {
                    all_id_chars = false;
                }
                i = i + 1;
            }
            if all_id_chars {
                Ok(string_from_chars(&trimmed))
            } else {
                proof {
                    assert(!is_raw_id(trim_seq(input@)));
                }
                let msg = concat2("Cannot extract ID from: ", input);
                Err(ArcaferryError::InvalidUrl(msg))
            }
        },
    }
}

/// Which flavor an input is: a dream URL, a share-style URL, or a raw
/// id.
pub open spec fn url_type_spec(s: Seq<char>) -> QuackUrlType {
    let l = lower_seq(s);
    if contains_seq(l, "/dream/"@) {
        QuackUrlType::Dream
    } else if contains_seq(l, "/discovery/share/"@) || contains_seq(l, "/studio/card/"@)
        || contains_seq(l, "/character/"@) {
        QuackUrlType::Share
    } else if contains_seq(l, "purrly"@) || contains_seq(l, "quack"@) || starts_with_seq(
        l,
        "http"@,
    ) {
        QuackUrlType::Share
    } else {
        QuackUrlType::Unknown
    }
}

/// Classifies the input: dream URLs need the chat-info path, share
/// URLs and raw ids go straight to share info.
pub fn get_url_type(input: &str) -> (r: QuackUrlType)
    ensures
        r == url_type_spec(input@),
{
    let chars = chars_vec(input);
    let lowered = ascii_lower(&chars);
    if contains_sub(&lowered, &chars_vec("/dream/")) {
        QuackUrlType::Dream
    } else if contains_sub(&lowered, &chars_vec("/discovery/share/")) || contains_sub(
        &lowered,
        &chars_vec("/studio/card/"),
    ) || contains_sub(&lowered, &chars_vec("/character/")) {
        QuackUrlType::Share
    } else if contains_sub(&lowered, &chars_vec("purrly")) || contains_sub(
        &lowered,
        &chars_vec("quack"),
    ) || starts_with_sub(&lowered, &chars_vec("http")) {
        QuackUrlType::Share
    } else {
        QuackUrlType::Unknown
    }
}

/// Whether the input belongs to the quack.im host family.
pub open spec fn is_quack_host(s: Seq<char>) -> bool {
    let l = lower_seq(s);
    contains_seq(l, "quack.im"@) || contains_seq(l, "quack.work"@) || contains_seq(
        l,
        "quack.icu"@,
    )
}

/// Picks the API base for an input: the quack base for quack.im,
/// quack.work and quack.icu hosts, the purrly base otherwise.
pub fn get_api_base(input: &str) -> (r: &'static str)
    ensures
        is_quack_host(input@) ==> r@ == "https://quack.im"@,
        !is_quack_host(input@) ==> r@ == "https://purrly.ai"@,
{
    let chars = chars_vec(input);
    let lowered = ascii_lower(&chars);
    if contains_sub(&lowered, &chars_vec("quack.im")) || contains_sub(
        &lowered,
        &chars_vec("quack.work"),
    ) || contains_sub(&lowered, &chars_vec("quack.icu")) {
        proof {
            reveal_strlit("https://quack.im");
        }
        QUACK_API_BASE
    } else {
        proof {
            reveal_strlit("https://purrly.ai");
        }
        PURRLY_API_BASE
    }
}

/// Builds the avatar URL: absolute URLs pass through, bare paths are
/// prefixed with the avatar host.
pub fn build_avatar_url(picture: &str) -> (r: String)
    ensures
        starts_with_seq(picture@, "http"@) ==> r@ == picture@,
        !starts_with_seq(picture@, "http"@) ==> r@ == "https://static.purrly.ai/upload_char_avatar/"@
            + picture@,
{
    let chars = chars_vec(picture);
    if starts_with_sub(&chars, &chars_vec("http")) {
        string_from_chars(&chars)
    } else {
        concat2(AVATAR_BASE_URL, picture)
    }
}

/// Classifies a wrapped upstream envelope: code 0 yields the payload
/// (or a missing-field error when it is absent); 401 or an "auth"
/// message is an authorization failure; any other non-zero code is a
/// network error carrying the code and message.
pub fn classify_api_response<T>(resp: QuackApiResponse<T>) -> (r: Result<T, ArcaferryError>)
    ensures
        resp.code == 0 ==> match r {
            Ok(v) => resp.data == Some(v),
            Err(e) => resp.data is None && e is MissingField,
        },
        resp.code != 0 ==> r is Err,
        resp.code != 0 ==> ((r.get_Err_0() is Unauthorized) <==> (resp.code == 401 || contains_seq(
            lower_seq(msg_or_unknown(resp.msg)),
            "auth"@,
        ))),
        resp.code != 0 && !(r.get_Err_0() is Unauthorized) ==> r.get_Err_0() is NetworkError,
{
    if resp.code == 0 {
        match resp.data {
            Some(v) => Ok(v),
            None => Err(ArcaferryError::MissingField(String::from_str("character data"))),
        }
    } else {
        let msg: String = match resp.msg {
            Some(m) => m,
            None => String::from_str("Unknown API error"),
        };
        let mchars = chars_vec(msg.as_str());
        let lowered = ascii_lower(&mchars);
        if resp.code == 401 || contains_sub(&lowered, &chars_vec("auth")) {
            Err(ArcaferryError::Unauthorized(concat2("Cookie Invalid - ", msg.as_str())))
        } else {
            let code_str = crate::strutil::i64_to_string(resp.code as i64);
            let head = concat2("Quack API error (code ", code_str.as_str());
            let mid = concat2(head.as_str(), "): ");
            Err(ArcaferryError::NetworkError(concat2(mid.as_str(), msg.as_str())))
        }
    }
}

/// The envelope message, with the default used when it is absent.
pub open spec fn msg_or_unknown(msg: Option<String>) -> Seq<char> {
    match msg {
        Some(m) => m@,
        None => "Unknown API error"@,
    }
}

// ---------------------------------------------------------------------------
// Attribute formatting
// ---------------------------------------------------------------------------

/// The effective label of an attribute: `label`, else `name`.
pub open spec fn attr_label_of(a: QuackAttribute) -> Option<Seq<char>> {
    match a.label {
        Some(l) => Some(l@),
        None => match a.name {
            Some(n) => Some(n@),
            None => None,
        },
    }
}

/// Whether an attribute counts as visible (`is_visible` absent means
/// visible).
pub open spec fn attr_visible(a: QuackAttribute) -> bool {
    match a.is_visible {
        Some(b) => b,
        None => true,
    }
}

/// The `[Label: Value]` line of an attribute, when both the effective
/// label and the value are present and non-empty.
pub open spec fn attr_line(a: QuackAttribute) -> Option<Seq<char>> {
    match attr_label_of(a) {
        Some(l) => match a.value {
            Some(v) => if l.len() > 0 && v@.len() > 0 {
                Some("["@ + l + ": "@ + v@ + "]"@)
            } else {
                None
            },
            None => None,
        },
        None => None,
    }
}

/// The `[Label: Value]` lines of the visible (or of all) attributes.
pub open spec fn attr_lines(attrs: Seq<QuackAttribute>, visible_only: bool) -> Seq<Seq<char>>
    decreases attrs.len(),
{
    if attrs.len() == 0 {
        Seq::empty()
    } else {
        let rest = attr_lines(attrs.drop_first(), visible_only);
        if !visible_only || attr_visible(attrs[0]) {
            match attr_line(attrs[0]) {
                Some(l) => seq![l] + rest,
                None => rest,
            }
        } else {
            rest
        }
    }
}

/// Attribute lines joined with newlines.
pub open spec fn format_attrs_spec(attrs: Seq<QuackAttribute>, visible_only: bool) -> Seq<char> {
    join_seq(attr_lines(attrs, visible_only), "\n"@)
}

/// The lines of the hidden attributes (`is_visible == false`).
pub open spec fn hidden_attr_lines(attrs: Seq<QuackAttribute>) -> Seq<Seq<char>>
    decreases attrs.len(),
{
    if attrs.len() == 0 {
        Seq::empty()
    } else {
        let rest = hidden_attr_lines(attrs.drop_first());
        if !attr_visible(attrs[0]) {
            match attr_line(attrs[0]) {
                Some(l) => seq![l] + rest,
                None => rest,
            }
        } else {
            rest
        }
    }
}

pub open spec fn format_hidden_attrs_spec(attrs: Seq<QuackAttribute>) -> Seq<char> {
    join_seq(hidden_attr_lines(attrs), "\n"@)
}

fn attr_line_exec(a: &QuackAttribute) -> (r: Option<String>)
    ensures
        match r {
            Some(l) => attr_line(*a) == Some(l@),
            None => attr_line(*a) is None,
        },
{
    let label: &String = match &a.label {
        Some(l) => l,
        None => match &a.name {
            Some(n) => n,
            None => {
                return None;
            },
        },
    };
    let value: &String = match &a.value {
        Some(v) => v,
        None => {
            return None;
        },
    };
    if label.as_str().unicode_len() > 0 && value.as_str().unicode_len() > 0 {
        let head = concat2("[", label.as_str());
        let mid = concat2(head.as_str(), ": ");
        let tail = concat2(mid.as_str(), value.as_str());
        let line = concat2(tail.as_str(), "]");
        proof {
            assert(line@ =~= "["@ + label@ + ": "@ + value@ + "]"@);
        }
        Some(line)
    } else {
        None
    }
}

/// Formats attributes as `[Label: Value]` blocks joined by newlines;
/// with `visible_only`, hidden attributes are left out.
pub fn format_attrs(attrs: &Vec<QuackAttribute>, visible_only: bool) -> (r: String)
    ensures
        r@ == format_attrs_spec(attrs@, visible_only),
{
    let mut lines: Vec<String> = Vec::new();
    let n = attrs.len();
    let mut i: usize = 0;
    proof {
        assert(attrs@.skip(0) =~= attrs@);
    }
    while i < n
        invariant
            n == attrs@.len(),
            i <= n,
            attr_lines(attrs@, visible_only) =~= lines@.map_values(|s: String| s@) + attr_lines(
                attrs@.skip(i as int),
                visible_only,
            ),
        decreases n - i,
    {
        let ghost restv = attrs@.skip(i as int);
        let ghost pre = lines@.map_values(|s: String| s@);
        proof {
            assert(restv[0] == attrs@[i as int]);
            assert(restv.drop_first() =~= attrs@.skip(i + 1));
        }
        let a = &attrs[i];
        let keep_it = if visible_only {
            match a.is_visible {
                Some(b) => b,
                None => true,
            }
        } else {
            true
        };
        if keep_it {
            match attr_line_exec(a) {
                Some(l) => {
                    lines.push(l);
                    proof {
                        assert(lines@.map_values(|s: String| s@) =~= pre + seq![
                            lines@.last()@,
                        ]);
                    }
                },
                None => {},
            }
        }
        i = i + 1;
        proof {
            assert(attr_lines(attrs@, visible_only) =~= lines@.map_values(|s: String| s@)
                + attr_lines(attrs@.skip(i as int), visible_only));
        }
    }
    proof {
        assert(attrs@.skip(n as int) =~= Seq::<QuackAttribute>::empty());
        assert(lines@.map_values(|s: String| s@) =~= attr_lines(attrs@, visible_only));
    }
    crate::strutil::join_with(&lines, "\n")
}

/// Formats the hidden attributes (`is_visible == false`) as
/// `[Label: Value]` blocks joined by newlines.
pub fn format_hidden_attrs(attrs: &Vec<QuackAttribute>) -> (r: String)
    ensures
        r@ == format_hidden_attrs_spec(attrs@),
{
    let mut lines: Vec<String> = Vec::new();
    let n = attrs.len();
    let mut i: usize = 0;
    proof {
        assert(attrs@.skip(0) =~= attrs@);
    }
    while i < n
        invariant
            n == attrs@.len(),
            i <= n,
            hidden_attr_lines(attrs@) =~= lines@.map_values(|s: String| s@) + hidden_attr_lines(
                attrs@.skip(i as int),
            ),
        decreases n - i,
    {
        let ghost restv = attrs@.skip(i as int);
        let ghost pre = lines@.map_values(|s: String| s@);
        proof {
            assert(restv[0] == attrs@[i as int]);
            assert(restv.drop_first() =~= attrs@.skip(i + 1));
        }
        let a = &attrs[i];
        let hidden = match a.is_visible {
            Some(b) => !b,
            None => false,
        };
        if hidden {
            match attr_line_exec(a) {
                Some(l) => {
                    lines.push(l);
                    proof {
                        assert(lines@.map_values(|s: String| s@) =~= pre + seq![
                            lines@.last()@,
                        ]);
                    }
                },
                None => {},
            }
        }
        i = i + 1;
        proof {
            assert(hidden_attr_lines(attrs@) =~= lines@.map_values(|s: String| s@)
                + hidden_attr_lines(attrs@.skip(i as int)));
        }
    }
    proof {
        assert(attrs@.skip(n as int) =~= Seq::<QuackAttribute>::empty());
        assert(lines@.map_values(|s: String| s@) =~= hidden_attr_lines(attrs@));
    }
    crate::strutil::join_with(&lines, "\n")
}

/// Whether an attribute's effective label is `personality`,
/// case-insensitively.
pub open spec fn is_personality_attr(a: QuackAttribute) -> bool {
    match attr_label_of(a) {
        Some(l) => lower_seq(l) == "personality"@,
        None => false,
    }
}

/// The value of the first attribute labelled `personality`, or empty.
pub open spec fn personality_from_attrs(attrs: Seq<QuackAttribute>) -> Seq<char>
    decreases attrs.len(),
{
    if attrs.len() == 0 {
        Seq::empty()
    } else if is_personality_attr(attrs[0]) {
        match attrs[0].value {
            Some(v) => v@,
            None => Seq::empty(),
        }
    } else {
        personality_from_attrs(attrs.drop_first())
    }
}

/// Finds the personality attribute and hands back its value.
pub fn extract_personality(attrs: &Vec<QuackAttribute>) -> (r: String)
    ensures
        r@ == personality_from_attrs(attrs@),
{
    let target = chars_vec("personality");
    proof {
        reveal_strlit("personality");
    }
    let n = attrs.len();
    let mut i: usize = 0;
    proof {
        assert(attrs@.skip(0) =~= attrs@);
    }
    while i < n
        invariant
            n == attrs@.len(),
            i <= n,
            target@ == "personality"@,
            personality_from_attrs(attrs@) == personality_from_attrs(attrs@.skip(i as int)),
        decreases n - i,
    {
        let ghost restv = attrs@.skip(i as int);
        proof {
            assert(restv[0] == attrs@[i as int]);
            assert(restv.drop_first() =~= attrs@.skip(i + 1));
        }
        let a = &attrs[i];
        let label: Option<&String> = match &a.label {
            Some(l) => Some(l),
            None => match &a.name {
                Some(nm) => Some(nm),
                None => None,
            },
        };
        match label {
            Some(l) => {
                let lchars = ascii_lower(&chars_vec(l.as_str()));
                if crate::strutil::chars_eq(&lchars, &target) {
                    proof {
                        assert(is_personality_attr(restv[0]));
                    }
                    return match &a.value {
                        Some(v) => v.clone(),
                        None => String::new(),
                    };
                }
                proof {
                    assert(!is_personality_attr(restv[0]));
                }
            },
            None => {
                proof {
                    assert(!is_personality_attr(restv[0]));
                }
            },
        }
        i = i + 1;
    }
    proof {
        assert(attrs@.skip(n as int) =~= Seq::<QuackAttribute>::empty());
    }
    String::new()
}

// ---------------------------------------------------------------------------
// Greetings
// ---------------------------------------------------------------------------

/// The text a greeting item carries: `value`, else `content`, else
/// `text`.
pub open spec fn greeting_text(g: QuackGreetingItem) -> Option<Seq<char>> {
    match g.value {
        Some(v) => Some(v@),
        None => match g.content {
            Some(c) => Some(c@),
            None => match g.text {
                Some(t) => Some(t@),
                None => None,
            },
        },
    }
}

/// The non-empty greeting texts, in order, preserved byte for byte.
pub open spec fn greeting_values(items: Seq<QuackGreetingItem>) -> Seq<Seq<char>>
    decreases items.len(),
{
    if items.len() == 0 {
        Seq::empty()
    } else {
        let rest = greeting_values(items.drop_first());
        match greeting_text(items[0]) {
            Some(s) => if s.len() > 0 {
                seq![s] + rest
            } else {
                rest
            },
            None => rest,
        }
    }
}

/// Extracts greetings: the first non-empty text becomes `first_mes`,
/// the rest become the alternates.  The HTML content passes through
/// untouched.
pub fn extract_greetings(items: &Vec<QuackGreetingItem>) -> (r: (String, Vec<String>))
    ensures
        ({
            let gv = greeting_values(items@);
            &&& gv.len() == 0 ==> r.0@ == Seq::<char>::empty() && r.1@.len() == 0
            &&& gv.len() > 0 ==> r.0@ == gv[0] && r.1@.map_values(|s: String| s@)
                == gv.drop_first()
        }),
{
    let mut values: Vec<String> = Vec::new();
    let n = items.len();
    let mut i: usize = 0;
    proof {
        assert(items@.skip(0) =~= items@);
    }
    while i < n
        invariant
            n == items@.len(),
            i <= n,
            greeting_values(items@) =~= values@.map_values(|s: String| s@) + greeting_values(
                items@.skip(i as int),
            ),
        decreases n - i,
    {
        let ghost restv = items@.skip(i as int);
        let ghost pre = values@.map_values(|s: String| s@);
        proof {
            assert(restv[0] == items@[i as int]);
            assert(restv.drop_first() =~= items@.skip(i + 1));
        }
        let g = &items[i];
        let text: Option<&String> = match &g.value {
            Some(v) => Some(v),
            None => match &g.content {
                Some(c) => Some(c),
                None => match &g.text {
                    Some(t) => Some(t),
                    None => None,
                },
            },
        };
        match text {
            Some(t) => {
                if t.as_str().unicode_len() > 0 {
                    values.push(t.clone());
                    proof {
                        assert(values@.map_values(|s: String| s@) =~= pre + seq![
                            values@.last()@,
                        ]);
                    }
                }
            },
            None => {},
        }
        i = i + 1;
        proof {
            assert(greeting_values(items@) =~= values@.map_values(|s: String| s@)
                + greeting_values(items@.skip(i as int)));
        }
    }
    proof {
        assert(items@.skip(n as int) =~= Seq::<QuackGreetingItem>::empty());
        assert(values@.map_values(|s: String| s@) =~= greeting_values(items@));
    }
    if values.len() == 0 {
        (String::new(), Vec::new())
    } else {
        let first = values[0].clone();
        let mut alts: Vec<String> = Vec::new();
        let m = values.len();
        let mut j: usize = 1;
        while j < m
            invariant
                1 <= j <= m,
                m == values@.len(),
                alts@ =~= values@.subrange(1, j as int),
            decreases m - j,
        {
            alts.push(values[j].clone());
            j = j + 1;
        }
        proof {
            assert(alts@ =~= values@.drop_first());
            let lhs = alts@.map_values(|s: String| s@);
            let rhs = values@.map_values(|s: String| s@).drop_first();
            assert(lhs =~= rhs) by {
                assert forall|k: int| 0 <= k < lhs.len() implies #[trigger] lhs[k] == rhs[k] by {
                    assert(alts@[k] == values@[k + 1]);
                }
            }
        }
        (first, alts)
    }
}

/// Every collected greeting value is non-empty.
pub proof fn lemma_greeting_values_nonempty(items: Seq<QuackGreetingItem>)
    ensures
        forall|k: int| 0 <= k < greeting_values(items).len() ==> greeting_values(items)[k].len()
            > 0,
    decreases items.len(),
{
    if items.len() > 0 {
        lemma_greeting_values_nonempty(items.drop_first());
        let rest = greeting_values(items.drop_first());
        match greeting_text(items[0]) {
            Some(s) => {
                if s.len() > 0 {
                    assert forall|k: int|
                        0 <= k < greeting_values(items).len() implies greeting_values(
                        items,
                    )[k].len() > 0 by {
                        if k > 0 {
                            assert(greeting_values(items)[k] == rest[k - 1]);
                        }
                    }
                }
            },
            None => {},
        }
    }
}

/// The greeting values of a prologue, empty when it carries none.
pub open spec fn prologue_values(p: QuackPrologue) -> Seq<Seq<char>> {
    match p.greetings {
        Some(g) => greeting_values(g@),
        None => Seq::empty(),
    }
}

/// Extracts greetings from a prologue.
pub fn extract_greetings_from_prologue(p: &QuackPrologue) -> (r: (String, Vec<String>))
    ensures
        ({
            let gv = prologue_values(*p);
            &&& gv.len() == 0 ==> r.0@ == Seq::<char>::empty() && r.1@.len() == 0
            &&& gv.len() > 0 ==> r.0@ == gv[0] && r.1@.map_values(|s: String| s@)
                == gv.drop_first()
        }),
{
    match &p.greetings {
        Some(g) => extract_greetings(g),
        None => (String::new(), Vec::new()),
    }
}

// ---------------------------------------------------------------------------
// Keys
// ---------------------------------------------------------------------------

/// Comma-separated pieces, trimmed, empties dropped.
pub open spec fn keys_of_pieces(pieces: Seq<Seq<char>>) -> Seq<Seq<char>>
    decreases pieces.len(),
{
    if pieces.len() == 0 {
        Seq::empty()
    } else {
        let t = trim_seq(pieces[0]);
        let rest = keys_of_pieces(pieces.drop_first());
        if t.len() > 0 {
            seq![t] + rest
        } else {
            rest
        }
    }
}

/// What a comma-separated key string denotes.
pub open spec fn parse_keys_spec(keys: Option<String>) -> Seq<Seq<char>> {
    match keys {
        Some(s) => keys_of_pieces(split_seq(s@, ',')),
        None => Seq::empty(),
    }
}

/// Splits a comma-separated key list, trimming each key and dropping
/// empty ones.
pub fn parse_keys(keys_str: Option<&String>) -> (r: Vec<String>)
    ensures
        match keys_str {
            Some(s) => r@.map_values(|x: String| x@) == parse_keys_spec(Some(*s)),
            None => r@.len() == 0,
        },
{
    let s = match keys_str {
        Some(s) => s,
        None => {
            return Vec::new();
        },
    };
    let chars = chars_vec(s.as_str());
    let pieces = split_char(&chars, ',');
    let mut out: Vec<String> = Vec::new();
    let n = pieces.len();
    let mut i: usize = 0;
    proof {
        assert(pieces.deep_view().skip(0) =~= pieces.deep_view());
    }
    while i < n
        invariant
            n == pieces@.len(),
            i <= n,
            pieces.deep_view() == split_seq(s@, ','),
            keys_of_pieces(pieces.deep_view()) =~= out@.map_values(|x: String| x@)
                + keys_of_pieces(pieces.deep_view().skip(i as int)),
        decreases n - i,
    {
        let ghost restv = pieces.deep_view().skip(i as int);
        let ghost pre = out@.map_values(|x: String| x@);
        proof {
            assert(restv[0] == pieces.deep_view()[i as int]);
            assert(pieces.deep_view()[i as int] == pieces@[i as int]@);
            assert(restv.drop_first() =~= pieces.deep_view().skip(i + 1));
        }
        let t = trim_vec(&pieces[i]);
        if t.len() > 0 {
            out.push(string_from_chars(&t));
            proof {
                assert(out@.map_values(|x: String| x@) =~= pre + seq![out@.last()@]);
            }
        }
        i = i + 1;
        proof {
            assert(keys_of_pieces(pieces.deep_view()) =~= out@.map_values(|x: String| x@)
                + keys_of_pieces(pieces.deep_view().skip(i as int)));
        }
    }
    proof {
        assert(pieces.deep_view().skip(n as int) =~= Seq::<Seq<char>>::empty());
        assert(out@.map_values(|x: String| x@) =~= keys_of_pieces(pieces.deep_view()));
    }
    out
}

// ---------------------------------------------------------------------------
// Lorebook mapping
// ---------------------------------------------------------------------------

/// The keys of a mapped entry: the parsed comma-separated keys; when
/// they are empty and the entry is not constant, the entry name is the
/// fallback key; a constant entry keeps its empty keys.
pub open spec fn entry_keys_spec(e: QuackLorebookEntry) -> Seq<Seq<char>> {
    let parsed = parse_keys_spec(e.keys);
    let constant = match e.constant {
        Some(b) => b,
        None => false,
    };
    if parsed.len() == 0 && !constant {
        match e.name {
            Some(n) => if n@.len() > 0 {
                seq![n@]
            } else {
                parsed
            },
            None => parsed,
        }
    } else {
        parsed
    }
}

/// The secondary keys of a mapped entry.
pub open spec fn entry_secondary_spec(e: QuackLorebookEntry) -> Seq<Seq<char>> {
    parse_keys_spec(e.secondary_keys)
}

/// The mapped position: 0 is `before_char`, 1 is `after_char`, and
/// anything else falls back to `before_char`.
pub open spec fn entry_position_spec(e: QuackLorebookEntry) -> Seq<char> {
    match e.position {
        Some(p) => if p == 1 {
            "after_char"@
        } else {
            "before_char"@
        },
        None => "before_char"@,
    }
}

/// Everything `map_lorebook_entry` promises of its output, with the
/// entry's 0-based index.
pub open spec fn mapped_entry_ok(
    out: crate::ccv3::LorebookEntry,
    e: QuackLorebookEntry,
    idx: int,
) -> bool {
    &&& out.keys@.map_values(|s: String| s@) == entry_keys_spec(e)
    &&& out.secondary_keys@.map_values(|s: String| s@) == entry_secondary_spec(e)
    &&& out.content@ == match e.content {
        Some(c) => c@,
        None => Seq::<char>::empty(),
    }
    &&& out.enabled == match e.enabled {
        Some(b) => b,
        None => true,
    }
    &&& out.insertion_order == idx + 1
    &&& out.case_sensitive == Some(
        match e.case_sensitive {
            Some(b) => b,
            None => false,
        },
    )
    &&& out.use_regex == match e.use_regex {
        Some(b) => b,
        None => false,
    }
    &&& out.constant == Some(
        match e.constant {
            Some(b) => b,
            None => false,
        },
    )
    &&& out.name == e.name
    &&& out.priority == Some(
        match e.priority {
            Some(p) => p,
            None => 10,
        },
    )
    &&& match out.id {
        Some(v) => v == idx + 1,
        None => false,
    }
    &&& out.comment == e.comment
    &&& out.selective == Some(entry_secondary_spec(e).len() > 0)
    &&& match out.position {
        Some(p) => p@ == entry_position_spec(e),
        None => false,
    }
    &&& out.extensions == e.extra
}

/// Maps one upstream lorebook entry: constant entries keep empty keys,
/// `selective` is derived from the secondary keys, position 0/1 become
/// `before_char`/`after_char`, and the order fields are the 1-based
/// index.
pub fn map_lorebook_entry(entry: &QuackLorebookEntry, index: i32) -> (r: crate::ccv3::LorebookEntry)
    requires
        index < i32::MAX,
    ensures
        mapped_entry_ok(r, *entry, index as int),
{
    let keys_parsed = parse_keys(entry.keys.as_ref());
    let constant = match entry.constant {
        Some(b) => b,
        None => false,
    };
    let keys: Vec<String> = if keys_parsed.len() == 0 && !constant {
        match &entry.name {
            Some(n) => {
                if n.as_str().unicode_len() > 0 {
                    let mut v: Vec<String> = Vec::new();
                    v.push(n.clone());
                    proof {
                        assert(v@.map_values(|s: String| s@) =~= seq![n@]);
                    }
                    v
                } else {
                    keys_parsed
                }
            },
            None => keys_parsed,
        }
    } else {
        keys_parsed
    };
    let secondary = parse_keys(entry.secondary_keys.as_ref());
    let selective = secondary.len() > 0;
    let position: String = match entry.position {
        Some(p) => {
            if p == 1 {
                String::from_str("after_char")
            } else {
                String::from_str("before_char")
            }
        },
        None => String::from_str("before_char"),
    };
    proof {
        if entry.keys is None {
            assert(parse_keys_spec(entry.keys) =~= Seq::<Seq<char>>::empty());
        }
        if entry.secondary_keys is None {
            assert(parse_keys_spec(entry.secondary_keys) =~= Seq::<Seq<char>>::empty());
            assert(secondary@.map_values(|s: String| s@) =~= Seq::<Seq<char>>::empty());
        }
        if keys@.len() == 0 {
            assert(keys@.map_values(|s: String| s@) =~= Seq::<Seq<char>>::empty());
        }
    }
    crate::ccv3::LorebookEntry {
        keys,
        secondary_keys: secondary,
        content: match &entry.content {
            Some(c) => c.clone(),
            None => String::new(),
        },
        enabled: match entry.enabled {
            Some(b) => b,
            None => true,
        },
        insertion_order: index + 1,
        case_sensitive: Some(
            match entry.case_sensitive {
                Some(b) => b,
                None => false,
            },
        ),
        use_regex: match entry.use_regex {
            Some(b) => b,
            None => false,
        },
        constant: Some(constant),
        name: clone_opt_string(&entry.name),
        priority: Some(
            match entry.priority {
                Some(p) => p,
                None => 10,
            },
        ),
        id: Some((index + 1) as i64),
        comment: clone_opt_string(&entry.comment),
        selective: Some(selective),
        position: Some(position),
        extensions: entry.extra.clone(),
    }
}

/// Everything `map_lorebook` promises of its output.
pub open spec fn mapped_book_ok(
    b: crate::ccv3::Lorebook,
    entries: Seq<QuackLorebookEntry>,
    name: Seq<char>,
) -> bool {
    &&& b.name@ == name
    &&& b.description@ == Seq::<char>::empty()
    &&& b.scan_depth == Some(50i32)
    &&& b.token_budget == Some(500i32)
    &&& b.recursive_scanning == Some(false)
    &&& b.entries@.len() == entries.len()
    &&& forall|i: int|
        0 <= i < entries.len() ==> mapped_entry_ok(#[trigger] b.entries@[i], entries[i], i)
}

/// Maps a list of upstream entries into a lorebook with the standard
/// container defaults.
pub fn map_lorebook(entries: &Vec<QuackLorebookEntry>, book_name: Option<&str>) -> (r:
    crate::ccv3::Lorebook)
    requires
        entries@.len() < i32::MAX,
    ensures
        mapped_book_ok(
            r,
            entries@,
            match book_name {
                Some(b) => b@,
                None => "Quack Lore"@,
            },
        ),
{
    let name: String = match book_name {
        Some(b) => String::from_str(b),
        None => String::from_str("Quack Lore"),
    };
    let mut out: Vec<crate::ccv3::LorebookEntry> = Vec::new();
    let n = entries.len();
    let mut i: usize = 0;
    while i < n
        invariant
            n == entries@.len(),
            n < i32::MAX,
            i <= n,
            out@.len() == i,
            forall|k: int| 0 <= k < i ==> mapped_entry_ok(#[trigger] out@[k], entries@[k], k),
        decreases n - i,
    {
        let e = map_lorebook_entry(&entries[i], i as i32);
        out.push(e);
        i = i + 1;
    }
    crate::ccv3::Lorebook {
        name,
        description: String::new(),
        scan_depth: Some(50),
        token_budget: Some(500),
        recursive_scanning: Some(false),
        entries: out,
        extensions: crate::outside::new_ext_bag(),
    }
}

/// Every mapped entry has `selective` equal to the presence of
/// secondary keys, a position of `before_char` or `after_char`, and an
/// insertion order one past its index.
pub proof fn lemma_lorebook_entry_invariants(
    out: crate::ccv3::LorebookEntry,
    e: QuackLorebookEntry,
    idx: int,
)
    requires
        mapped_entry_ok(out, e, idx),
    ensures
        out.selective == Some(out.secondary_keys@.len() > 0),
        match out.position {
            Some(p) => p@ == "before_char"@ || p@ == "after_char"@,
            None => false,
        },
        out.insertion_order == idx + 1,
{
    assert(out.secondary_keys@.map_values(|s: String| s@).len() == out.secondary_keys@.len());
}

// ---------------------------------------------------------------------------
// Attribute collection and tags
// ---------------------------------------------------------------------------

/// The decoded attributes of the raw top-level array, in order.
pub open spec fn raw_decoded(ras: Seq<QuackRawAttr>) -> Seq<QuackAttribute>
    decreases ras.len(),
{
    if ras.len() == 0 {
        Seq::empty()
    } else {
        let rest = raw_decoded(ras.drop_first());
        if ras[0].decoded {
            seq![ras[0].attr] + rest
        } else {
            rest
        }
    }
}

/// The first entry of `char_list`, if any.
pub open spec fn first_char_of(info: QuackCharacterInfo) -> Option<QuackCharListItem> {
    match info.char_list {
        Some(l) => if l@.len() > 0 {
            Some(l@[0])
        } else {
            None
        },
        None => None,
    }
}

pub open spec fn opt_attrs(v: Option<Vec<QuackAttribute>>) -> Seq<QuackAttribute> {
    match v {
        Some(a) => a@,
        None => Seq::empty(),
    }
}

/// All attributes, in collection order: the decoded top-level raw
/// array, then the first character's `attrs`, `advise_attrs` and
/// `custom_attrs`.
pub open spec fn collect_attrs_spec(info: QuackCharacterInfo) -> Seq<QuackAttribute> {
    let raw = match info.custom_attrs {
        Some(ras) => raw_decoded(ras@),
        None => Seq::empty(),
    };
    match first_char_of(info) {
        Some(c) => raw + opt_attrs(c.attrs) + opt_attrs(c.advise_attrs) + opt_attrs(
            c.custom_attrs,
        ),
        None => raw + Seq::empty() + Seq::empty() + Seq::empty(),
    }
}

fn push_attrs(out: &mut Vec<QuackAttribute>, src: &Vec<QuackAttribute>)
    ensures
        final(out)@ == old(out)@ + src@,
{
    let n = src.len();
    let mut i: usize = 0;
    while i < n
        invariant
            n == src@.len(),
            i <= n,
            out@ =~= old(out)@ + src@.take(i as int),
        decreases n - i,
    {
        out.push(src[i].duplicate());
        i = i + 1;
    }
    proof {
        assert(old(out)@ + src@.take(n as int) =~= old(out)@ + src@);
    }
}

/// Collects every attribute the info carries, in order.
pub fn collect_all_attrs(info: &QuackCharacterInfo) -> (r: Vec<QuackAttribute>)
    ensures
        r@ == collect_attrs_spec(*info),
{
    let mut out: Vec<QuackAttribute> = Vec::new();
    match &info.custom_attrs {
        Some(ras) => {
            let n = ras.len();
            let mut i: usize = 0;
            proof {
                assert(ras@.skip(0) =~= ras@);
            }
            while i < n
                invariant
                    n == ras@.len(),
                    i <= n,
                    raw_decoded(ras@) =~= out@ + raw_decoded(ras@.skip(i as int)),
                decreases n - i,
            {
                let ghost restv = ras@.skip(i as int);
                let ghost pre = out@;
                proof {
                    assert(restv[0] == ras@[i as int]);
                    assert(restv.drop_first() =~= ras@.skip(i + 1));
                }
                if ras[i].decoded {
                    out.push(ras[i].attr.duplicate());
                    proof {
                        assert(out@ =~= pre + seq![ras@[i as int].attr]);
                    }
                }
                i = i + 1;
                proof {
                    assert(raw_decoded(ras@) =~= out@ + raw_decoded(ras@.skip(i as int)));
                }
            }
            proof {
                assert(ras@.skip(n as int) =~= Seq::<QuackRawAttr>::empty());
            }
        },
        None => {},
    }
    let ghost raw_part = out@;
    match &info.char_list {
        Some(list) => {
            if list.len() > 0 {
                let first = &list[0];
                proof {
                    assert(first_char_of(*info) == Some(list@[0]));
                }
                match &first.attrs {
                    Some(a) => push_attrs(&mut out, a),
                    None => {},
                }
                match &first.advise_attrs {
                    Some(a) => push_attrs(&mut out, a),
                    None => {},
                }
                match &first.custom_attrs {
                    Some(a) => push_attrs(&mut out, a),
                    None => {},
                }
                proof {
                    assert(out@ =~= collect_attrs_spec(*info));
                }
            } else {
                proof {
                    assert(out@ =~= collect_attrs_spec(*info));
                }
            }
        },
        None => {
            proof {
                assert(out@ =~= collect_attrs_spec(*info));
            }
        },
    }
    out
}

/// The mapped tags: the upstream tags with `QuackAI` inserted at the
/// front when absent.
pub open spec fn tags_spec(info: QuackCharacterInfo) -> Seq<Seq<char>> {
    let base = match info.tags {
        Some(ts) => ts@.map_values(|s: String| s@),
        None => Seq::<Seq<char>>::empty(),
    };
    if base.contains("QuackAI"@) {
        base
    } else {
        seq!["QuackAI"@] + base
    }
}

/// Extracts the tag list, forcing `QuackAI` to be present (at the
/// front when newly added).
pub fn extract_tags(info: &QuackCharacterInfo) -> (r: Vec<String>)
    ensures
        r@.map_values(|s: String| s@) == tags_spec(*info),
{
    let base: Vec<String> = match &info.tags {
        Some(ts) => crate::strutil::clone_string_vec(ts),
        None => Vec::new(),
    };
    proof {
        if info.tags is None {
            assert(base@.map_values(|s: String| s@) =~= Seq::<Seq<char>>::empty());
        }
        reveal_strlit("QuackAI");
    }
    let ghost basev = base@.map_values(|s: String| s@);
    let mut has = false;
    let n = base.len();
    let mut i: usize = 0;
    while i < n
        invariant
            n == base@.len(),
            basev == base@.map_values(|s: String| s@),
            i <= n,
            has == exists|k: int| 0 <= k < i && #[trigger] basev[k] == "QuackAI"@,
        decreases n - i,
    {
        if str_eq(base[i].as_str(), "QuackAI") {
            proof {
                assert(basev[i as int] == "QuackAI"@);
            }
            has = true;
        }
        i = i + 1;
    }
    proof {
        if has {
            assert(basev.contains("QuackAI"@));
        } else {
            if basev.contains("QuackAI"@) {
                let w = choose|k: int| 0 <= k < basev.len() && basev[k] == "QuackAI"@;
                assert(basev[w] == "QuackAI"@);
            }
        }
    }
    if has {
        base
    } else {
        let mut out: Vec<String> = Vec::new();
        out.push(String::from_str("QuackAI"));
        let mut j: usize = 0;
        while j < n
            invariant
                n == base@.len(),
                basev == base@.map_values(|s: String| s@),
                j <= n,
                out@.len() == j + 1,
                out@[0]@ == "QuackAI"@,
                forall|k: int| 1 <= k < out@.len() ==> out@[k]@ == basev[k - 1],
            decreases n - j,
        {
            out.push(base[j].clone());
            proof {
                assert(out@.last()@ == basev[j as int]);
            }
            j = j + 1;
        }
        proof {
            let lhs = out@.map_values(|s: String| s@);
            let rhs = seq!["QuackAI"@] + basev;
            assert(lhs =~= rhs) by {
                assert forall|k: int| 0 <= k < lhs.len() implies #[trigger] lhs[k] == rhs[k] by {
                    assert(lhs[k] == out@[k]@);
                }
            }
        }
        out
    }
}

/// Every produced tag list contains `QuackAI`; when the upstream had
/// no such tag it stands at the front.
pub proof fn lemma_tags_quackai(info: QuackCharacterInfo)
    ensures
        tags_spec(info).contains("QuackAI"@),
        !(match info.tags {
            Some(ts) => ts@.map_values(|s: String| s@),
            None => Seq::<Seq<char>>::empty(),
        }).contains("QuackAI"@) ==> tags_spec(info)[0] == "QuackAI"@,
{
    let base = match info.tags {
        Some(ts) => ts@.map_values(|s: String| s@),
        None => Seq::<Seq<char>>::empty(),
    };
    if !base.contains("QuackAI"@) {
        assert(tags_spec(info)[0] == "QuackAI"@);
        assert(tags_spec(info).contains("QuackAI"@)) by {
            assert(tags_spec(info)[0] == "QuackAI"@);
        }
    }
}

// ---------------------------------------------------------------------------
// The mapper
// ---------------------------------------------------------------------------

/// The card name: the first character's name when non-empty, else the
/// top-level name.
pub open spec fn name_spec(info: QuackCharacterInfo) -> Seq<char> {
    match first_char_of(info) {
        Some(c) => match c.name {
            Some(n) => if n@.len() > 0 {
                n@
            } else {
                info.name@
            },
            None => info.name@,
        },
        None => info.name@,
    }
}

/// The first message and base alternates: prologue greetings win, then
/// the raw greeting array, then the `first_mes` field.
pub open spec fn base_greetings(info: QuackCharacterInfo) -> (Seq<char>, Seq<Seq<char>>) {
    let pv = match info.prologue {
        Some(p) => prologue_values(p),
        None => Seq::empty(),
    };
    if pv.len() > 0 {
        (pv[0], pv.drop_first())
    } else {
        let gv = match info.greeting {
            Some(g) => greeting_values(g@),
            None => Seq::empty(),
        };
        if gv.len() > 0 {
            (gv[0], gv.drop_first())
        } else {
            (
                match info.first_mes {
                    Some(f) => f@,
                    None => Seq::<char>::empty(),
                },
                Seq::empty(),
            )
        }
    }
}

/// The studio prologue's non-first greetings.
pub open spec fn studio_alts_of(info: QuackCharacterInfo) -> Seq<Seq<char>> {
    match info.chat_info {
        Some(ci) => match ci.studio_prologue {
            Some(sp) => {
                let v = prologue_values(sp);
                if v.len() > 0 {
                    v.drop_first()
                } else {
                    Seq::empty()
                }
            },
            None => Seq::empty(),
        },
        None => Seq::empty(),
    }
}

/// The studio alternates that survive deduplication: non-empty, not
/// already among the base alternates, and not the first message.
pub open spec fn studio_filtered(
    studio: Seq<Seq<char>>,
    base: Seq<Seq<char>>,
    first: Seq<char>,
) -> Seq<Seq<char>>
    decreases studio.len(),
{
    if studio.len() == 0 {
        Seq::empty()
    } else {
        let rest = studio_filtered(studio.drop_first(), base, first);
        let g = studio[0];
        if g.len() > 0 && !base.contains(g) && g != first {
            seq![g] + rest
        } else {
            rest
        }
    }
}

/// The final alternate greetings.
pub open spec fn alts_spec(info: QuackCharacterInfo) -> Seq<Seq<char>> {
    let fm = base_greetings(info).0;
    let base = base_greetings(info).1;
    base + studio_filtered(studio_alts_of(info), base, fm)
}

/// All entries of the upstream lorebook wrappers, flattened in order.
pub open spec fn flatten_wrappers(bs: Seq<QuackLorebookWrapper>) -> Seq<QuackLorebookEntry>
    decreases bs.len(),
{
    if bs.len() == 0 {
        Seq::empty()
    } else {
        (match bs[0].entry_list {
            Some(l) => l@,
            None => Seq::empty(),
        }) + flatten_wrappers(bs.drop_first())
    }
}

pub open spec fn flatten_books(books: Option<Vec<QuackLorebookWrapper>>) -> Seq<
    QuackLorebookEntry,
> {
    match books {
        Some(bs) => flatten_wrappers(bs@),
        None => Seq::empty(),
    }
}

/// The entries the card's lorebook is built from: the entries passed
/// in, else the flattened `characterbooks`.
pub open spec fn book_source(
    info: QuackCharacterInfo,
    entries: Seq<QuackLorebookEntry>,
) -> Seq<QuackLorebookEntry> {
    if entries.len() > 0 {
        entries
    } else {
        flatten_books(info.characterbooks)
    }
}

/// The system prompt: the first character's prompt, else the top-level
/// one; hidden `[Label: Value]` lines are appended after a blank line,
/// or stand alone when the base is empty.
pub open spec fn system_prompt_spec(info: QuackCharacterInfo) -> Seq<char> {
    let fallback = match info.system_prompt {
        Some(s) => s@,
        None => Seq::<char>::empty(),
    };
    let base = match first_char_of(info) {
        Some(c) => match c.prompt {
            Some(p) => p@,
            None => fallback,
        },
        None => fallback,
    };
    let hidden = format_hidden_attrs_spec(collect_attrs_spec(info));
    if hidden.len() > 0 {
        if base.len() > 0 {
            base + "\n\n"@ + hidden
        } else {
            hidden
        }
    } else {
        base
    }
}

pub open spec fn mes_example_spec(info: QuackCharacterInfo) -> Seq<char> {
    let fallback = match info.mes_example {
        Some(m) => m@,
        None => Seq::<char>::empty(),
    };
    match info.chat_info {
        Some(ci) => match ci.char_mes_example {
            Some(m) => m@,
            None => fallback,
        },
        None => fallback,
    }
}

pub open spec fn creator_spec(info: QuackCharacterInfo) -> Seq<char> {
    match info.author_name {
        Some(a) => a@,
        None => match info.creator {
            Some(c) => c@,
            None => Seq::<char>::empty(),
        },
    }
}

pub open spec fn creator_notes_spec(info: QuackCharacterInfo) -> Seq<char> {
    let fallback = match info.creator_notes {
        Some(c) => c@,
        None => match info.intro {
            Some(i) => i@,
            None => Seq::<char>::empty(),
        },
    };
    match info.chat_info {
        Some(ci) => match ci.char_creator_notes {
            Some(c) => c@,
            None => fallback,
        },
        None => fallback,
    }
}

fn opt_string_or_empty(v: &Option<String>) -> (r: String)
    ensures
        r@ == match *v {
            Some(s) => s@,
            None => Seq::<char>::empty(),
        },
{
    match v {
        Some(s) => s.clone(),
        None => String::new(),
    }
}

/// Flattens all character-book wrappers into one entry list.
pub fn flatten_books_exec_pub(books: &Option<Vec<QuackLorebookWrapper>>) -> (r: Vec<
    QuackLorebookEntry,
>)
    ensures
        r@ == flatten_books(*books),
{
    let mut out: Vec<QuackLorebookEntry> = Vec::new();
    match books {
        Some(bs) => {
            let n = bs.len();
            let mut i: usize = 0;
            proof {
                assert(bs@.skip(0) =~= bs@);
            }
            while i < n
                invariant
                    n == bs@.len(),
                    i <= n,
                    flatten_wrappers(bs@) =~= out@ + flatten_wrappers(bs@.skip(i as int)),
                decreases n - i,
            {
                let ghost restv = bs@.skip(i as int);
                let ghost pre = out@;
                proof {
                    assert(restv[0] == bs@[i as int]);
                    assert(restv.drop_first() =~= bs@.skip(i + 1));
                }
                match &bs[i].entry_list {
                    Some(list) => {
                        let m = list.len();
                        let mut j: usize = 0;
                        while j < m
                            invariant
                                m == list@.len(),
                                j <= m,
                                out@ =~= pre + list@.take(j as int),
                            decreases m - j,
                        {
                            out.push(duplicate_lorebook_entry(&list[j]));
                            j = j + 1;
                        }
                        proof {
                            assert(pre + list@.take(m as int) =~= pre + list@);
                        }
                    },
                    None => {},
                }
                i = i + 1;
                proof {
                    assert(flatten_wrappers(bs@) =~= out@ + flatten_wrappers(bs@.skip(i as int)));
                }
            }
            proof {
                assert(bs@.skip(n as int) =~= Seq::<QuackLorebookWrapper>::empty());
                assert(out@ =~= flatten_wrappers(bs@));
            }
        },
        None => {},
    }
    out
}

/// An equal copy of an upstream lorebook entry.
pub fn duplicate_lorebook_entry(e: &QuackLorebookEntry) -> (r: QuackLorebookEntry)
    ensures
        r == *e,
{
    QuackLorebookEntry {
        keys: clone_opt_string(&e.keys),
        content: clone_opt_string(&e.content),
        position: e.position,
        constant: e.constant,
        enabled: e.enabled,
        insertion_order: e.insertion_order,
        case_sensitive: e.case_sensitive,
        use_regex: e.use_regex,
        name: clone_opt_string(&e.name),
        priority: e.priority,
        comment: clone_opt_string(&e.comment),
        selective: e.selective,
        secondary_keys: clone_opt_string(&e.secondary_keys),
        extra: e.extra.clone(),
    }
}

fn vec_contains_string(v: &Vec<String>, s: &str) -> (r: bool)
    ensures
        r == v@.map_values(|x: String| x@).contains(s@),
{
    let ghost views = v@.map_values(|x: String| x@);
    let n = v.len();
    let mut i: usize = 0;
    while i < n
        invariant
            n == v@.len(),
            views == v@.map_values(|x: String| x@),
            i <= n,
            forall|k: int| 0 <= k < i ==> views[k] != s@,
        decreases n - i,
    {
        if str_eq(v[i].as_str(), s) {
            proof {
                assert(views[i as int] == s@);
            }
            return true;
        }
        i = i + 1;
    }
    proof {
        if views.contains(s@) {
            let w = choose|k: int| 0 <= k < views.len() && views[k] == s@;
            assert(views[w] == s@);
        }
    }
    false
}

/// Maps upstream character info and lorebook entries into a CCv3 card.
/// The hard constraints hold exactly: greetings pass through byte for
/// byte, attributes become `[Label: Value]` lines, constant lore
/// entries keep empty keys, `selective` is derived from the secondary
/// keys, and `QuackAI` is always among the tags.
pub fn map_quack_to_v3(
    info: &QuackCharacterInfo,
    lorebook_entries: &Vec<QuackLorebookEntry>,
    now: i64,
) -> (r: crate::ccv3::CharacterCardV3)
    requires
        lorebook_entries@.len() < i32::MAX,
        flatten_books(info.characterbooks).len() < i32::MAX,
    ensures
        r.spec@ == "chara_card_v3"@,
        r.spec_version@ == "3.0"@,
        r.data.name@ == name_spec(*info),
        r.data.description@ == format_attrs_spec(collect_attrs_spec(*info), true),
        r.data.personality@ == match info.personality {
            Some(p) => p@,
            None => personality_from_attrs(collect_attrs_spec(*info)),
        },
        r.data.scenario@ == match info.scenario {
            Some(s) => s@,
            None => Seq::<char>::empty(),
        },
        r.data.first_mes@ == base_greetings(*info).0,
        r.data.mes_example@ == mes_example_spec(*info),
        r.data.alternate_greetings@.map_values(|s: String| s@) == alts_spec(*info),
        r.data.system_prompt@ == system_prompt_spec(*info),
        r.data.post_history_instructions@ == match info.post_history_instructions {
            Some(s) => s@,
            None => Seq::<char>::empty(),
        },
        match r.data.character_book {
            Some(b) => book_source(*info, lorebook_entries@).len() > 0 && mapped_book_ok(
                b,
                book_source(*info, lorebook_entries@),
                name_spec(*info) + "\u{7684}\u{4e16}\u{754c}\u{4e66}"@,
            ),
            None => book_source(*info, lorebook_entries@).len() == 0,
        },
        r.data.creator@ == creator_spec(*info),
        r.data.creator_notes@ == creator_notes_spec(*info),
        r.data.tags@.map_values(|s: String| s@) == tags_spec(*info),
        r.data.character_version@ == "1.0"@,
        r.data.creation_date == Some(now),
        r.data.modification_date == Some(now),
        r.data.assets is None,
        r.data.nickname is None,
        r.data.source is None,
        r.data.group_only_greetings@.len() == 0,
{
    // name
    let name: String = match &info.char_list {
        Some(list) => {
            if list.len() > 0 {
                match &list[0].name {
                    Some(n) => {
                        if n.as_str().unicode_len() > 0 {
                            n.clone()
                        } else {
                            info.name.clone()
                        }
                    },
                    None => info.name.clone(),
                }
            } else {
                info.name.clone()
            }
        },
        None => info.name.clone(),
    };
    let all_attrs = collect_all_attrs(info);
    let description = format_attrs(&all_attrs, true);
    let personality: String = match &info.personality {
        Some(p) => p.clone(),
        None => extract_personality(&all_attrs),
    };
    // greetings
    let (mut first_mes, mut alternate_greetings): (String, Vec<String>) = match &info.prologue {
        Some(p) => extract_greetings_from_prologue(p),
        None => (String::new(), Vec::new()),
    };
    if first_mes.as_str().unicode_len() == 0 {
        let (fm, alts) = match &info.greeting {
            Some(g) => extract_greetings(g),
            None => (String::new(), Vec::new()),
        };
        first_mes = fm;
        if alternate_greetings.len() == 0 {
            alternate_greetings = alts;
        }
        if first_mes.as_str().unicode_len() == 0 {
            first_mes = opt_string_or_empty(&info.first_mes);
        }
    }
    proof {
        let pv = match &info.prologue {
            Some(p) => prologue_values(*p),
            None => Seq::<Seq<char>>::empty(),
        };
        let gv = match &info.greeting {
            Some(g) => greeting_values(g@),
            None => Seq::<Seq<char>>::empty(),
        };
        match &info.prologue {
            Some(p) => {
                match &p.greetings {
                    Some(items) => {
                        lemma_greeting_values_nonempty(items@);
                    },
                    None => {},
                }
            },
            None => {},
        }
        match &info.greeting {
            Some(g) => {
                lemma_greeting_values_nonempty(g@);
            },
            None => {},
        }
        if pv.len() > 0 {
            assert(pv[0].len() > 0);
        } else if gv.len() > 0 {
            assert(gv[0].len() > 0);
        }
        if alternate_greetings@.len() == 0 {
            assert(alternate_greetings@.map_values(|s: String| s@)
                =~= Seq::<Seq<char>>::empty());
        }
        assert(first_mes@ == base_greetings(*info).0);
        assert(alternate_greetings@.map_values(|s: String| s@) == base_greetings(*info).1);
    }
    // studio prologue merge; deduplication goes against the base list
    // only, so upstream duplicates within the studio list are kept
    let base_list = crate::strutil::clone_string_vec(&alternate_greetings);
    let ghost base_alts = alternate_greetings@.map_values(|s: String| s@);
    match &info.chat_info {
        Some(ci) => {
            match &ci.studio_prologue {
                Some(sp) => {
                    let (_sfirst, studio_alts) = extract_greetings_from_prologue(sp);
                    let ghost studio = studio_alts@.map_values(|s: String| s@);
                    proof {
                        assert(studio == studio_alts_of(*info));
                    }
                    let m = studio_alts.len();
                    let mut j: usize = 0;
                    proof {
                        assert(studio.skip(0) =~= studio);
                        let m1 = base_list@.map_values(|s: String| s@);
                        assert(m1 =~= base_alts) by {
                            assert forall|k: int| 0 <= k < m1.len() implies #[trigger] m1[k]
                                == base_alts[k] by {
                                assert(m1[k] == base_list@[k]@);
                            }
                        }
                    }
                    while j < m
                        invariant
                            m == studio_alts@.len(),
                            j <= m,
                            base_list@.map_values(|s: String| s@) == base_alts,
                            studio == studio_alts@.map_values(|s: String| s@),
                            base_alts + studio_filtered(studio, base_alts, first_mes@)
                                =~= alternate_greetings@.map_values(|s: String| s@)
                                + studio_filtered(
                                studio.skip(j as int),
                                base_alts,
                                first_mes@,
                            ),
                        decreases m - j,
                    {
                        let ghost restv = studio.skip(j as int);
                        let ghost pre = alternate_greetings@.map_values(|s: String| s@);
                        proof {
                            assert(restv[0] == studio[j as int]);
                            assert(studio[j as int] == studio_alts@[j as int]@);
                            assert(restv.drop_first() =~= studio.skip(j + 1));
                        }
                        let g = &studio_alts[j];
                        let keep = g.as_str().unicode_len() > 0 && !vec_contains_string(
                            &base_list,
                            g.as_str(),
                        ) && !str_eq(g.as_str(), first_mes.as_str());
                        proof {
                            assert(keep == (restv[0].len() > 0 && !base_alts.contains(restv[0])
                                && restv[0] != first_mes@));
                        }
                        if keep {
                            alternate_greetings.push(g.clone());
                            proof {
                                assert(alternate_greetings@.map_values(|s: String| s@) =~= pre
                                    + seq![studio[j as int]]);
                            }
                        }
                        j = j + 1;
                        proof {
                            let cond = restv[0].len() > 0 && !base_alts.contains(restv[0])
                                && restv[0] != first_mes@;
                            let rest2 = studio_filtered(
                                studio.skip(j as int),
                                base_alts,
                                first_mes@,
                            );
                            assert(restv.drop_first() =~= studio.skip(j as int));
                            assert(studio_filtered(restv, base_alts, first_mes@) == (if cond {
                                seq![restv[0]] + rest2
                            } else {
                                rest2
                            }));
                            if cond {
                                assert(pre + (seq![restv[0]] + rest2) =~= (pre + seq![
                                    restv[0],
                                ]) + rest2);
                                assert(alternate_greetings@.map_values(|s: String| s@) =~= pre
                                    + seq![restv[0]]);
                            }
                            assert(base_alts + studio_filtered(studio, base_alts, first_mes@)
                                =~= alternate_greetings@.map_values(|s: String| s@)
                                + studio_filtered(studio.skip(j as int), base_alts, first_mes@));
                        }
                    }
                    proof {
                        assert(studio.skip(m as int) =~= Seq::<Seq<char>>::empty());
                        assert(alternate_greetings@.map_values(|s: String| s@) =~= base_alts
                            + studio_filtered(studio, base_alts, first_mes@));
                    }
                },
                None => {
                    proof {
                        assert(studio_filtered(
                            studio_alts_of(*info),
                            base_alts,
                            first_mes@,
                        ) =~= Seq::<Seq<char>>::empty());
                        assert(alternate_greetings@.map_values(|s: String| s@) =~= base_alts
                            + studio_filtered(studio_alts_of(*info), base_alts, first_mes@));
                    }
                },
            }
        },
        None => {
            proof {
                assert(studio_filtered(studio_alts_of(*info), base_alts, first_mes@)
                    =~= Seq::<Seq<char>>::empty());
                assert(alternate_greetings@.map_values(|s: String| s@) =~= base_alts
                    + studio_filtered(studio_alts_of(*info), base_alts, first_mes@));
            }
        },
    }
    let tags = extract_tags(info);
    // lorebook
    let book_name = concat2(name.as_str(), "\u{7684}\u{4e16}\u{754c}\u{4e66}");
    let character_book: Option<crate::ccv3::Lorebook> = if lorebook_entries.len() > 0 {
        Some(map_lorebook(lorebook_entries, Some(book_name.as_str())))
    } else {
        let flat = flatten_books_exec_pub(&info.characterbooks);
        if flat.len() == 0 {
            None
        } else {
            Some(map_lorebook(&flat, Some(book_name.as_str())))
        }
    };
    // system prompt
    let mut system_prompt: String = match &info.char_list {
        Some(list) => {
            if list.len() > 0 {
                match &list[0].prompt {
                    Some(p) => p.clone(),
                    None => opt_string_or_empty(&info.system_prompt),
                }
            } else {
                opt_string_or_empty(&info.system_prompt)
            }
        },
        None => opt_string_or_empty(&info.system_prompt),
    };
    let hidden_block = format_hidden_attrs(&all_attrs);
    if hidden_block.as_str().unicode_len() > 0 {
        if system_prompt.as_str().unicode_len() > 0 {
            let head = concat2(system_prompt.as_str(), "\n\n");
            system_prompt = concat2(head.as_str(), hidden_block.as_str());
            proof {
                assert(system_prompt@ =~= system_prompt_spec(*info));
            }
        } else {
            system_prompt = hidden_block;
        }
    }
    let mes_example: String = match &info.chat_info {
        Some(ci) => match &ci.char_mes_example {
            Some(m) => m.clone(),
            None => opt_string_or_empty(&info.mes_example),
        },
        None => opt_string_or_empty(&info.mes_example),
    };
    let creator: String = match &info.author_name {
        Some(a) => a.clone(),
        None => opt_string_or_empty(&info.creator),
    };
    let creator_notes: String = match &info.chat_info {
        Some(ci) => match &ci.char_creator_notes {
            Some(c) => c.clone(),
            None => creator_notes_fallback(info),
        },
        None => creator_notes_fallback(info),
    };
    let mut data = crate::ccv3::CharacterCardData::empty();
    data.name = name;
    data.description = description;
    data.personality = personality;
    data.scenario = opt_string_or_empty(&info.scenario);
    data.first_mes = first_mes;
    data.mes_example = mes_example;
    data.alternate_greetings = alternate_greetings;
    data.system_prompt = system_prompt;
    data.post_history_instructions = opt_string_or_empty(&info.post_history_instructions);
    data.character_book = character_book;
    data.creator = creator;
    data.creator_notes = creator_notes;
    data.tags = tags;
    data.character_version = String::from_str("1.0");
    data.creation_date = Some(now);
    data.modification_date = Some(now);
    crate::ccv3::CharacterCardV3 {
        spec: String::from_str("chara_card_v3"),
        spec_version: String::from_str("3.0"),
        data,
    }
}

fn creator_notes_fallback(info: &QuackCharacterInfo) -> (r: String)
    ensures
        r@ == match info.creator_notes {
            Some(c) => c@,
            None => match info.intro {
                Some(i) => i@,
                None => Seq::<char>::empty(),
            },
        },
{
    match &info.creator_notes {
        Some(c) => c.clone(),
        None => opt_string_or_empty(&info.intro),
    }
}

impl QuackCharacterInfo {
    /// Maps this info (plus extra lorebook entries) to a CCv3 card
    /// stamped with the given time.
    pub fn to_ccv3(&self, lorebook_entries: &Vec<QuackLorebookEntry>, now: i64) -> (r:
        crate::ccv3::CharacterCardV3)
        requires
            lorebook_entries@.len() < i32::MAX,
            flatten_books(self.characterbooks).len() < i32::MAX,
        ensures
            r.spec@ == "chara_card_v3"@,
            r.data.name@ == name_spec(*self),
            r.data.tags@.map_values(|s: String| s@) == tags_spec(*self),
    {
        map_quack_to_v3(self, lorebook_entries, now)
    }
}

// ---------------------------------------------------------------------------
// Placeholder and hidden-setting detection
// ---------------------------------------------------------------------------

/// An entry's content length, in characters.
pub open spec fn entry_content_len(e: QuackLorebookEntry) -> int {
    match e.content {
        Some(c) => c@.len() as int,
        None => 0,
    }
}

/// A placeholder entry list: some entry's content is at most one
/// character (empty, `_`, `-`, or the like).
pub open spec fn is_placeholder_entries_spec(entries: Seq<QuackLorebookEntry>) -> bool {
    exists|i: int| 0 <= i < entries.len() && entry_content_len(#[trigger] entries[i]) <= 1
}

/// Checks whether any entry carries placeholder content.
pub fn is_placeholder_entries(entries: &Vec<QuackLorebookEntry>) -> (r: bool)
    ensures
        r == is_placeholder_entries_spec(entries@),
{
    let n = entries.len();
    let mut i: usize = 0;
    while i < n
        invariant
            n == entries@.len(),
            i <= n,
            forall|k: int| 0 <= k < i ==> entry_content_len(#[trigger] entries@[k]) > 1,
        decreases n - i,
    {
        let len = match &entries[i].content {
            Some(c) => c.as_str().unicode_len(),
            None => 0,
        };
        if len <= 1 {
            return true;
        }
        i = i + 1;
    }
    false
}

/// Some character book holds a placeholder entry list.
pub open spec fn has_placeholder_spec(info: QuackCharacterInfo) -> bool {
    match info.characterbooks {
        Some(bs) => exists|i: int|
            0 <= i < bs@.len() && match (#[trigger] bs@[i]).entry_list {
                Some(l) => is_placeholder_entries_spec(l@),
                None => false,
            },
        None => false,
    }
}

/// Whether the lorebook data is placeholder-only and real data must be
/// fetched behind a chat session.
pub fn has_placeholder_lorebook(info: &QuackCharacterInfo) -> (r: bool)
    ensures
        r == has_placeholder_spec(*info),
{
    match &info.characterbooks {
        Some(bs) => {
            let n = bs.len();
            let mut i: usize = 0;
            while i < n
                invariant
                    n == bs@.len(),
                    info.characterbooks == Some(*bs),
                    i <= n,
                    forall|k: int|
                        0 <= k < i ==> match (#[trigger] bs@[k]).entry_list {
                            Some(l) => !is_placeholder_entries_spec(l@),
                            None => true,
                        },
                decreases n - i,
            {
                match &bs[i].entry_list {
                    Some(l) => {
                        if is_placeholder_entries(l) {
                            proof {
                                assert(has_placeholder_spec(*info)) by {
                                    assert((i as int) < bs@.len());
                                    assert(match (bs@[i as int]).entry_list {
                                        Some(x) => is_placeholder_entries_spec(x@),
                                        None => false,
                                    });
                                }
                            }
                            return true;
                        }
                    },
                    None => {},
                }
                i = i + 1;
            }
            false
        },
        None => false,
    }
}

/// A hidden attribute with an empty value.
pub open spec fn is_empty_hidden(a: QuackAttribute) -> bool {
    a.is_visible == Some(false) && match a.value {
        Some(v) => v@.len() == 0,
        None => true,
    }
}

/// Some collected attribute is hidden and empty.
pub open spec fn has_empty_hidden_spec(info: QuackCharacterInfo) -> bool {
    exists|i: int|
        0 <= i < collect_attrs_spec(info).len() && is_empty_hidden(
            #[trigger] collect_attrs_spec(info)[i],
        )
}

/// Whether any hidden attribute is empty and needs extraction.
pub fn has_empty_hidden_settings(info: &QuackCharacterInfo) -> (r: bool)
    ensures
        r == has_empty_hidden_spec(*info),
{
    let attrs = collect_all_attrs(info);
    let n = attrs.len();
    let mut i: usize = 0;
    while i < n
        invariant
            n == attrs@.len(),
            attrs@ == collect_attrs_spec(*info),
            i <= n,
            forall|k: int| 0 <= k < i ==> !is_empty_hidden(#[trigger] attrs@[k]),
        decreases n - i,
    {
        let a = &attrs[i];
        let hidden = match a.is_visible {
            Some(b) => !b,
            None => false,
        };
        let empty_val = match &a.value {
            Some(v) => v.as_str().unicode_len() == 0,
            None => true,
        };
        if hidden && empty_val {
            return true;
        }
        i = i + 1;
    }
    false
}

/// The deduplication key of a hidden attribute: the trimmed label, or
/// the trimmed name when the label is blank.
pub open spec fn hidden_label_key(a: QuackAttribute) -> Option<Seq<char>> {
    let lv = match a.label {
        Some(l) => trim_seq(l@),
        None => Seq::<char>::empty(),
    };
    let nv = match a.name {
        Some(nm) => trim_seq(nm@),
        None => Seq::<char>::empty(),
    };
    if lv.len() > 0 {
        Some(lv)
    } else if nv.len() > 0 {
        Some(nv)
    } else {
        None
    }
}

/// A hidden attribute whose value is blank after trimming.
pub open spec fn needs_label(a: QuackAttribute) -> bool {
    a.is_visible == Some(false) && match a.value {
        Some(v) => trim_seq(v@).len() == 0,
        None => true,
    }
}

/// The labels collected so far after one attribute.
pub open spec fn hidden_labels_step(acc: Seq<Seq<char>>, a: QuackAttribute) -> Seq<Seq<char>> {
    if needs_label(a) {
        match hidden_label_key(a) {
            Some(k) => if acc.contains(k) {
                acc
            } else {
                acc.push(k)
            },
            None => acc,
        }
    } else {
        acc
    }
}

pub open spec fn hidden_labels_fold(attrs: Seq<QuackAttribute>, acc: Seq<Seq<char>>) -> Seq<
    Seq<char>,
>
    decreases attrs.len(),
{
    if attrs.len() == 0 {
        acc
    } else {
        hidden_labels_fold(attrs.drop_first(), hidden_labels_step(acc, attrs[0]))
    }
}

/// The labels of all empty hidden attributes, deduplicated, in order
/// of first appearance.
pub open spec fn hidden_labels_spec(info: QuackCharacterInfo) -> Seq<Seq<char>> {
    hidden_labels_fold(collect_attrs_spec(info), Seq::empty())
}

/// Collects the labels of empty hidden attributes, for the extractor.
pub fn get_hidden_attr_labels(info: &QuackCharacterInfo) -> (r: Vec<String>)
    ensures
        r@.map_values(|s: String| s@) == hidden_labels_spec(*info),
{
    let attrs = collect_all_attrs(info);
    let mut labels: Vec<String> = Vec::new();
    let n = attrs.len();
    let mut i: usize = 0;
    proof {
        assert(attrs@.skip(0) =~= attrs@);
        assert(labels@.map_values(|s: String| s@) =~= Seq::<Seq<char>>::empty());
    }
    while i < n
        invariant
            n == attrs@.len(),
            attrs@ == collect_attrs_spec(*info),
            i <= n,
            hidden_labels_spec(*info) == hidden_labels_fold(
                attrs@.skip(i as int),
                labels@.map_values(|s: String| s@),
            ),
        decreases n - i,
    {
        let ghost restv = attrs@.skip(i as int);
        let ghost pre = labels@.map_values(|s: String| s@);
        proof {
            assert(restv[0] == attrs@[i as int]);
            assert(restv.drop_first() =~= attrs@.skip(i + 1));
        }
        let a = &attrs[i];
        let is_needed = {
            let hidden = match a.is_visible {
                Some(b) => !b,
                None => false,
            };
            let blank = match &a.value {
                Some(v) => {
                    let t = trim_vec(&chars_vec(v.as_str()));
                    t.len() == 0
                },
                None => true,
            };
            hidden && blank
        };
        if is_needed {
            proof {
                assert(needs_label(attrs@[i as int]));
            }
            let ltrim = match &a.label {
                Some(l) => trim_vec(&chars_vec(l.as_str())),
                None => Vec::new(),
            };
            let ntrim = match &a.name {
                Some(nm) => trim_vec(&chars_vec(nm.as_str())),
                None => Vec::new(),
            };
            proof {
                if a.label is None {
                    assert(ltrim@ =~= Seq::<char>::empty());
                }
                if a.name is None {
                    assert(ntrim@ =~= Seq::<char>::empty());
                }
            }
            let key: Option<Vec<char>> = if ltrim.len() > 0 {
                Some(ltrim)
            } else if ntrim.len() > 0 {
                Some(ntrim)
            } else {
                None
            };
            match key {
                Some(k) => {
                    let kstr = string_from_chars(&k);
                    if !vec_contains_string(&labels, kstr.as_str()) {
                        labels.push(kstr);
                        proof {
                            assert(labels@.map_values(|s: String| s@) =~= pre.push(k@));
                        }
                    }
                },
                None => {},
            }
        } else {
            proof {
                assert(!needs_label(attrs@[i as int]));
            }
        }
        i = i + 1;
        proof {
            assert(labels@.map_values(|s: String| s@) == hidden_labels_step(pre, restv[0]));
            assert(hidden_labels_fold(restv, pre) == hidden_labels_fold(
                attrs@.skip(i as int),
                labels@.map_values(|s: String| s@),
            ));
        }
    }
    proof {
        assert(attrs@.skip(n as int) =~= Seq::<QuackAttribute>::empty());
    }
    labels
}

// ---------------------------------------------------------------------------
// Adapter
// ---------------------------------------------------------------------------

/// The platform adapter: input parsing for the Quack/Purrly family.
#[derive(Debug)]
pub struct QuackAdapter {
    pub default_api_base: String,
}

impl QuackAdapter {
    /// An adapter pointed at the default (purrly) API base.
    pub fn new() -> (r: Self)
        ensures
            r.default_api_base@ == "https://purrly.ai"@,
    {
        proof {
            reveal_strlit("https://purrly.ai");
        }
        QuackAdapter { default_api_base: String::from_str(PURRLY_API_BASE) }
    }

    /// The platform identifier.
    pub fn platform_id(&self) -> (r: &'static str)
        ensures
            r@ == "quack"@,
    {
        "quack"
    }

    /// Parses user input into a platform id.
    pub fn parse_input(&self, input: &str) -> (r: Result<String, ArcaferryError>)
        ensures
            match r {
                Ok(id) => extract_id_spec(input@) == Some(id@),
                Err(e) => extract_id_spec(input@) is None && e is InvalidUrl,
            },
    {
        extract_quack_id(input)
    }
}

} // verus!
