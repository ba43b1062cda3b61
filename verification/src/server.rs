//! Request/response shapes of the HTTP API and the per-request logic
//! the handlers run: error-to-status mapping, Cloudflare guidance, the
//! hidden-settings merge, previews, and batch bookkeeping.
//!
//! The transport (routing, JSON bodies, concurrency gates) lives
//! outside the library.

use vstd::prelude::*;
use crate::ccv3::{CharacterCardV3, Lorebook};
use crate::error::{ArcaferryError, error_message_spec};
use crate::http::{SupportedBrowsers, VersionWarning};
use crate::quack::{QuackAttribute, QuackCharacterInfo, QuackRawAttr};
use crate::sidecar::BrowserCapability;
use crate::strutil::{
    chars_vec,
    concat2,
    contains_seq,
    contains_sub,
    join_seq,
    lower_seq,
    split_char,
    split_seq,
    string_from_chars,
    str_eq,
    trim_seq,
    trim_vec,
};

verus! {

// ---------------------------------------------------------------------------
// Request and response shapes
// ---------------------------------------------------------------------------

/// The import endpoint's mode.
#[derive(Debug, Clone, Copy, PartialEq, Eq, Structural)]
pub enum ImportMode {
    Full,
    OnlyLorebook,
}

/// The output an acquisition endpoint renders.
#[derive(Debug, Clone, Copy, PartialEq, Eq, Structural)]
pub enum OutputFormat {
    Json,
    Png,
}

/// The status endpoint's reply.
#[derive(Debug)]
pub struct StatusResponse {
    pub status: String,
    pub version: String,
    pub ready: bool,
    pub port: u16,
    pub supported_browsers: SupportedBrowsers,
    pub browser_extraction_available: bool,
    pub browser_extraction_reason: String,
}

/// A single-URL scrape request.
#[derive(Debug)]
pub struct ScrapeRequest {
    pub url: String,
    pub cookies: Option<String>,
    pub bearer_token: Option<String>,
    pub user_agent: Option<String>,
    pub gemini_api_key: Option<String>,
    pub output_format: OutputFormat,
}

/// A single-URL scrape reply.
#[derive(Debug)]
pub struct ScrapeResponse {
    pub success: bool,
    pub card: Option<CharacterCardV3>,
    pub avatar_base64: Option<String>,
    pub png_base64: Option<String>,
    pub warnings: Vec<String>,
    pub error: Option<String>,
    pub error_code: Option<String>,
    pub version_warning: Option<VersionWarning>,
}

/// A batched scrape request.
#[derive(Debug)]
pub struct BatchScrapeRequest {
    pub urls: Vec<String>,
    pub cookies: Option<String>,
    pub bearer_token: Option<String>,
    pub user_agent: Option<String>,
    pub gemini_api_key: Option<String>,
    pub concurrency: usize,
    pub output_format: OutputFormat,
}

/// One item of a batch reply.
#[derive(Debug)]
pub struct BatchItemResult {
    pub url: String,
    pub success: bool,
    pub card: Option<CharacterCardV3>,
    pub avatar_base64: Option<String>,
    pub png_base64: Option<String>,
    pub warnings: Vec<String>,
    pub error: Option<String>,
    pub error_code: Option<String>,
}

/// A batch reply.
#[derive(Debug)]
pub struct BatchScrapeResponse {
    pub success: bool,
    pub total: usize,
    pub succeeded: usize,
    pub failed: usize,
    pub results: Vec<BatchItemResult>,
    pub version_warning: Option<VersionWarning>,
}

/// An import request: a URL or a pasted JSON object.
#[derive(Debug)]
pub struct ImportRequest {
    pub quack_input: String,
    pub lorebook_json: Option<String>,
    pub cookies: Option<String>,
    pub bearer_token: Option<String>,
    pub user_agent: Option<String>,
    pub gemini_api_key: Option<String>,
    pub mode: ImportMode,
    pub output_format: OutputFormat,
}

/// An import reply.
#[derive(Debug)]
pub struct ImportResponse {
    pub success: bool,
    pub card: Option<CharacterCardV3>,
    pub lorebook: Option<Lorebook>,
    pub png_base64: Option<String>,
    pub avatar_base64: Option<String>,
    pub source: String,
    pub warnings: Vec<String>,
    pub version_warning: Option<VersionWarning>,
}

/// A preview request.
#[derive(Debug)]
pub struct PreviewRequest {
    pub quack_input: String,
    pub cookies: Option<String>,
    pub bearer_token: Option<String>,
    pub user_agent: Option<String>,
}

/// The lightweight summary a preview returns.
#[derive(Debug)]
pub struct PreviewData {
    pub name: String,
    pub creator: String,
    pub intro: String,
    pub tags: Vec<String>,
    pub attr_count: i32,
    pub lorebook_count: i32,
    pub source: String,
}

/// A preview reply.
#[derive(Debug)]
pub struct PreviewResponse {
    pub success: bool,
    pub data: Option<PreviewData>,
    pub error: Option<String>,
    pub error_code: Option<String>,
}

/// The error body every endpoint uses.
#[derive(Debug)]
pub struct ErrorResponse {
    pub success: bool,
    pub error: String,
    pub error_code: String,
}

/// The process-wide server configuration.
#[derive(Debug)]
pub struct ServerState {
    pub port: u16,
    pub browser_capability: BrowserCapability,
    pub api_base_override: Option<String>,
    pub http_timeout_secs_override: Option<u64>,
}

/// The default batch concurrency.
pub fn default_concurrency() -> (r: usize)
    ensures
        r == 3,
{
    3
}

/// Clamps the requested batch concurrency into `1..=5`.
pub fn clamp_concurrency(c: usize) -> (r: usize)
    ensures
        c < 1 ==> r == 1,
        c > 5 ==> r == 5,
        1 <= c <= 5 ==> r == c,
{
    if c < 1 {
        1
    } else if c > 5 {
        5
    } else {
        c
    }
}

/// The API base a request uses: the configured override, else the one
/// the input's host picks.
pub fn effective_api_base<'a>(state: &'a ServerState, input: &str) -> (r: &'a str)
    ensures
        match state.api_base_override {
            Some(o) => r@ == o@,
            None => (crate::quack::is_quack_host(input@) ==> r@ == "https://quack.im"@) && (
            !crate::quack::is_quack_host(input@) ==> r@ == "https://purrly.ai"@),
        },
{
    match &state.api_base_override {
        Some(o) => o.as_str(),
        None => crate::quack::get_api_base(input),
    }
}

/// The availability flag and reason the status endpoint reports.
pub fn browser_capability_fields(cap: &BrowserCapability) -> (r: (bool, String))
    ensures
        match cap {
            BrowserCapability::Available => r.0 && r.1@ == "Python + Camoufox detected"@,
            BrowserCapability::NotInstalled(reason) => !r.0 && r.1@ == reason@,
            BrowserCapability::Error(reason) => !r.0 && r.1@ == reason@,
        },
{
    match cap {
        BrowserCapability::Available => (true, String::from_str("Python + Camoufox detected")),
        BrowserCapability::NotInstalled(reason) => (false, reason.clone()),
        BrowserCapability::Error(reason) => (false, reason.clone()),
    }
}

// ---------------------------------------------------------------------------
// Error mapping and Cloudflare guidance
// ---------------------------------------------------------------------------

/// The HTTP status an error maps to.
pub open spec fn http_status_spec(e: ArcaferryError) -> int {
    match e {
        ArcaferryError::Unauthorized(_) => 401,
        ArcaferryError::RateLimited(_) => 429,
        ArcaferryError::Timeout(_) => 504,
        ArcaferryError::CloudflareBlocked => 503,
        ArcaferryError::InvalidUrl(_) => 400,
        ArcaferryError::InvalidJson(_) => 400,
        ArcaferryError::ValidationError(_) => 400,
        _ => 502,
    }
}

/// The error code an error maps to.
pub open spec fn error_code_spec(e: ArcaferryError) -> Seq<char> {
    match e {
        ArcaferryError::Unauthorized(_) => "UNAUTHORIZED"@,
        ArcaferryError::RateLimited(_) => "RATE_LIMITED"@,
        ArcaferryError::Timeout(_) => "TIMEOUT"@,
        ArcaferryError::CloudflareBlocked => "CLOUDFLARE_BLOCKED"@,
        ArcaferryError::InvalidUrl(_) => "INVALID_URL"@,
        ArcaferryError::InvalidJson(_) => "PARSE_ERROR"@,
        ArcaferryError::ValidationError(_) => "PARSE_ERROR"@,
        _ => "NETWORK_ERROR"@,
    }
}

/// Maps an error to its HTTP status and error code.
pub fn error_to_http(e: &ArcaferryError) -> (r: (u16, String))
    ensures
        r.0 as int == http_status_spec(*e),
        r.1@ == error_code_spec(*e),
{
    match e {
        ArcaferryError::Unauthorized(_) => (401, String::from_str("UNAUTHORIZED")),
        ArcaferryError::RateLimited(_) => (429, String::from_str("RATE_LIMITED")),
        ArcaferryError::Timeout(_) => (504, String::from_str("TIMEOUT")),
        ArcaferryError::CloudflareBlocked => (503, String::from_str("CLOUDFLARE_BLOCKED")),
        ArcaferryError::InvalidUrl(_) => (400, String::from_str("INVALID_URL")),
        ArcaferryError::InvalidJson(_) => (400, String::from_str("PARSE_ERROR")),
        ArcaferryError::ValidationError(_) => (400, String::from_str("PARSE_ERROR")),
        _ => (502, String::from_str("NETWORK_ERROR")),
    }
}

/// Whether the request carried a `cf_clearance` cookie, in the parsed
/// jar or the raw cookie text.
pub fn has_cf_clearance_cookie(
    cookies_raw: Option<&str>,
    cookie_jar: Option<&crate::cookies::CookieJar>,
) -> (r: bool)
    ensures
        r == ({
            let in_jar = match cookie_jar {
                Some(jar) => crate::cookies::find_name_idx(jar@, "cf_clearance"@) is Some,
                None => false,
            };
            let in_raw = match cookies_raw {
                Some(s) => contains_seq(s@, "cf_clearance="@),
                None => false,
            };
            in_jar || in_raw
        }),
{
    let in_jar = match cookie_jar {
        Some(jar) => match jar.get("cf_clearance") {
            Some(_) => true,
            None => false,
        },
        None => false,
    };
    if in_jar {
        return true;
    }
    match cookies_raw {
        Some(s) => {
            let chars = chars_vec(s);
            contains_sub(&chars, &chars_vec("cf_clearance="))
        },
        None => false,
    }
}

/// The fixed part of the Cloudflare guidance text.
pub open spec fn guidance_tail() -> Seq<char> {
    "\nHow to fix Cloudflare verification:\n1) Use a real browser to open the target site until the challenge passes.\n2) Copy the cf_clearance cookie from THAT browser profile/session.\n   - Chrome/Edge: DevTools > Application > Storage > Cookies > https://quack.im (or https://purrly.ai)\n   - Or Network tab: request headers > Cookie\n3) Send the SAME browser User-Agent via user_agent.\n   - In browser console: navigator.userAgent\n4) Retry the API call with BOTH cookies and user_agent.\n\nNotes:\n- cf_clearance is bound to your UA/TLS fingerprint and IP. If you changed UA/VPN/network, get a fresh cf_clearance.\n- Check GET /api/status for supported_browsers and use a desktop UA within that range."@
}

/// The actionable Cloudflare guidance: a missing-cookie line, a
/// missing-user-agent line, then the fixed instructions.
pub open spec fn guidance_spec(has_cf: bool, has_ua: bool) -> Seq<char> {
    (if !has_cf {
        "Missing Cloudflare cookie: cf_clearance (required).\n"@
    } else {
        Seq::<char>::empty()
    }) + (if !has_ua {
        "Missing request field: user_agent (must match the browser that generated cf_clearance).\n"@
    } else {
        Seq::<char>::empty()
    }) + guidance_tail()
}

/// Builds the Cloudflare guidance paragraph, reporting whether the
/// `cf_clearance` cookie and the user agent were seen.
pub fn cloudflare_auth_guidance(has_cf_clearance: bool, has_user_agent: bool) -> (r: String)
    ensures
        r@ == guidance_spec(has_cf_clearance, has_user_agent),
{
    let mut out = String::new();
    if !has_cf_clearance {
        out.append("Missing Cloudflare cookie: cf_clearance (required).\n");
    }
    if !has_user_agent {
        out.append(
            "Missing request field: user_agent (must match the browser that generated cf_clearance).\n",
        );
    }
    out.append(
        "\nHow to fix Cloudflare verification:\n1) Use a real browser to open the target site until the challenge passes.\n2) Copy the cf_clearance cookie from THAT browser profile/session.\n   - Chrome/Edge: DevTools > Application > Storage > Cookies > https://quack.im (or https://purrly.ai)\n   - Or Network tab: request headers > Cookie\n3) Send the SAME browser User-Agent via user_agent.\n   - In browser console: navigator.userAgent\n4) Retry the API call with BOTH cookies and user_agent.\n\nNotes:\n- cf_clearance is bound to your UA/TLS fingerprint and IP. If you changed UA/VPN/network, get a fresh cf_clearance.\n- Check GET /api/status for supported_browsers and use a desktop UA within that range.",
    );
    proof {
        assert(out@ =~= guidance_spec(has_cf_clearance, has_user_agent));
    }
    out
}

/// The error text a reply carries: for a Cloudflare block, the error
/// message plus the guidance paragraph after a blank line.
pub fn maybe_attach_cloudflare_guidance(
    e: &ArcaferryError,
    error_code: &str,
    has_cf_clearance: bool,
    has_user_agent: bool,
) -> (r: String)
    ensures
        error_code@ == "CLOUDFLARE_BLOCKED"@ ==> r@ == error_message_spec(*e) + "\n\n"@
            + guidance_spec(has_cf_clearance, has_user_agent),
        error_code@ != "CLOUDFLARE_BLOCKED"@ ==> r@ == error_message_spec(*e),
{
    let base = e.message();
    if str_eq(error_code, "CLOUDFLARE_BLOCKED") {
        let guidance = cloudflare_auth_guidance(has_cf_clearance, has_user_agent);
        let head = concat2(base.as_str(), "\n\n");
        let r = concat2(head.as_str(), guidance.as_str());
        proof {
            assert(r@ =~= error_message_spec(*e) + "\n\n"@ + guidance_spec(
                has_cf_clearance,
                has_user_agent,
            ));
        }
        r
    } else {
        base
    }
}

// ---------------------------------------------------------------------------
// Hidden-settings merge
// ---------------------------------------------------------------------------

/// The value lookup the sidecar result builds: trimmed labels map to
/// values with later labels overwriting, trimmed names only fill
/// absent keys.  Modeled as an association list with unique keys.
pub type ValueMap = Seq<(Seq<char>, Seq<char>)>;

/// Index of the first pair with the given key.
pub open spec fn vm_find(vm: ValueMap, key: Seq<char>) -> Option<int>
    decreases vm.len(),
{
    if vm.len() == 0 {
        None
    } else if vm[0].0 == key {
        Some(0int)
    } else {
        match vm_find(vm.drop_first(), key) {
            Some(i) => Some(i + 1),
            None => None,
        }
    }
}

/// The value stored under a key.
pub open spec fn vm_lookup(vm: ValueMap, key: Seq<char>) -> Option<Seq<char>> {
    match vm_find(vm, key) {
        Some(i) => Some(vm[i].1),
        None => None,
    }
}

/// Insert with overwrite.
pub open spec fn vm_put(vm: ValueMap, key: Seq<char>, val: Seq<char>) -> ValueMap {
    match vm_find(vm, key) {
        Some(i) => vm.update(i, (key, val)),
        None => vm.push((key, val)),
    }
}

/// Insert only when the key is absent.
pub open spec fn vm_put_absent(vm: ValueMap, key: Seq<char>, val: Seq<char>) -> ValueMap {
    match vm_find(vm, key) {
        Some(_) => vm,
        None => vm.push((key, val)),
    }
}

/// What one extracted attribute adds to the value map.
pub open spec fn vm_step(vm: ValueMap, a: QuackAttribute) -> ValueMap {
    let value = match a.value {
        Some(v) => trim_seq(v@),
        None => Seq::<char>::empty(),
    };
    if value.len() == 0 {
        vm
    } else {
        let lv = match a.label {
            Some(l) => trim_seq(l@),
            None => Seq::<char>::empty(),
        };
        let nv = match a.name {
            Some(n) => trim_seq(n@),
            None => Seq::<char>::empty(),
        };
        let vm1 = if lv.len() > 0 {
            vm_put(vm, lv, value)
        } else {
            vm
        };
        if nv.len() > 0 {
            vm_put_absent(vm1, nv, value)
        } else {
            vm1
        }
    }
}

pub open spec fn vm_fold(attrs: Seq<QuackAttribute>, vm: ValueMap) -> ValueMap
    decreases attrs.len(),
{
    if attrs.len() == 0 {
        vm
    } else {
        vm_fold(attrs.drop_first(), vm_step(vm, attrs[0]))
    }
}

/// The value map an extraction result denotes.
pub open spec fn value_map_spec(extracted: Seq<QuackAttribute>) -> ValueMap {
    vm_fold(extracted, Seq::empty())
}

proof fn lemma_vm_find(vm: ValueMap, key: Seq<char>)
    ensures
        match vm_find(vm, key) {
            Some(i) => 0 <= i < vm.len() && vm[i].0 == key && forall|k: int|
                0 <= k < i ==> vm[k].0 != key,
            None => forall|k: int| 0 <= k < vm.len() ==> vm[k].0 != key,
        },
    decreases vm.len(),
{
    if vm.len() > 0 && vm[0].0 != key {
        lemma_vm_find(vm.drop_first(), key);
        assert(forall|k: int| 1 <= k < vm.len() ==> vm.drop_first()[k - 1] == vm[k]);
        match vm_find(vm.drop_first(), key) {
            Some(i) => {
                assert(vm[i + 1] == vm.drop_first()[i]);
            },
            None => {},
        }
    }
}

/// Whether an attribute is hidden with a blank (trimmed) value.
pub open spec fn hidden_blank(a: QuackAttribute) -> bool {
    a.is_visible == Some(false) && match a.value {
        Some(v) => trim_seq(v@).len() == 0,
        None => true,
    }
}

/// The key the merge looks an attribute up by: its trimmed label, or
/// its trimmed name when the label is blank.
pub open spec fn merge_key(a: QuackAttribute) -> Option<Seq<char>> {
    let lv = match a.label {
        Some(l) => trim_seq(l@),
        None => Seq::<char>::empty(),
    };
    let nv = match a.name {
        Some(n) => trim_seq(n@),
        None => Seq::<char>::empty(),
    };
    if lv.len() > 0 {
        Some(lv)
    } else if nv.len() > 0 {
        Some(nv)
    } else {
        None
    }
}

/// The value the merge would assign to an attribute, if any.
pub open spec fn merge_hit(a: QuackAttribute, vm: ValueMap) -> Option<Seq<char>> {
    if hidden_blank(a) {
        match merge_key(a) {
            Some(k) => vm_lookup(vm, k),
            None => None,
        }
    } else {
        None
    }
}

/// How one attribute looks after the merge.
pub open spec fn merged_attr_ok(old_a: QuackAttribute, new_a: QuackAttribute, vm: ValueMap)
    -> bool {
    match merge_hit(old_a, vm) {
        Some(v) => {
            &&& new_a.label == old_a.label
            &&& new_a.name == old_a.name
            &&& new_a.is_visible == old_a.is_visible
            &&& match new_a.value {
                Some(nv) => nv@ == v,
                None => false,
            }
        },
        None => new_a == old_a,
    }
}

/// How many assignments a list of attributes receives.
pub open spec fn merge_count(attrs: Seq<QuackAttribute>, vm: ValueMap) -> int
    decreases attrs.len(),
{
    if attrs.len() == 0 {
        0
    } else {
        (if merge_hit(attrs[0], vm) is Some {
            1int
        } else {
            0int
        }) + merge_count(attrs.drop_first(), vm)
    }
}

proof fn lemma_merge_count_bound(attrs: Seq<QuackAttribute>, vm: ValueMap)
    ensures
        0 <= merge_count(attrs, vm) <= attrs.len(),
    decreases attrs.len(),
{
    if attrs.len() > 0 {
        lemma_merge_count_bound(attrs.drop_first(), vm);
    }
}

fn vm_lookup_exec(vm: &Vec<(String, String)>, key: &str) -> (r: Option<String>)
    ensures
        ({
            let vms = vm@.map_values(|p: (String, String)| (p.0@, p.1@));
            match r {
                Some(v) => vm_lookup(vms, key@) == Some(v@),
                None => vm_lookup(vms, key@) is None,
            }
        }),
{
    let ghost vms = vm@.map_values(|p: (String, String)| (p.0@, p.1@));
    proof {
        lemma_vm_find(vms, key@);
    }
    let n = vm.len();
    let mut i: usize = 0;
    while i < n
        invariant
            n == vm@.len(),
            vms == vm@.map_values(|p: (String, String)| (p.0@, p.1@)),
            i <= n,
            forall|k: int| 0 <= k < i ==> vms[k].0 != key@,
        decreases n - i,
    {
        if str_eq(vm[i].0.as_str(), key) {
            proof {
                assert(vms[i as int].0 == key@);
                lemma_vm_find(vms, key@);
                assert(vm_find(vms, key@) == Some(i as int));
            }
            return Some(vm[i].1.clone());
        }
        proof {
            assert(vms[i as int] == (vm@[i as int].0@, vm@[i as int].1@));
        }
        i = i + 1;
    }
    proof {
        lemma_vm_find(vms, key@);
    }
    None
}

fn vm_put_exec(vm: &mut Vec<(String, String)>, key: String, val: String)
    ensures
        final(vm)@.map_values(|p: (String, String)| (p.0@, p.1@)) == vm_put(
            old(vm)@.map_values(|p: (String, String)| (p.0@, p.1@)),
            key@,
            val@,
        ),
{
    let ghost vms = vm@.map_values(|p: (String, String)| (p.0@, p.1@));
    proof {
        lemma_vm_find(vms, key@);
    }
    let n = vm.len();
    let mut i: usize = 0;
    while i < n
        invariant
            n == vm@.len(),
            vms == vm@.map_values(|p: (String, String)| (p.0@, p.1@)),
            vm@ == old(vm)@,
            i <= n,
            forall|k: int| 0 <= k < i ==> vms[k].0 != key@,
        decreases n - i,
    {
        if str_eq(vm[i].0.as_str(), key.as_str()) {
            proof {
                assert(vms[i as int].0 == key@);
                lemma_vm_find(vms, key@);
                assert(vm_find(vms, key@) == Some(i as int));
            }
            let ghost kk = key@;
            let ghost vv = val@;
            vm[i] = (key, val);
            proof {
                let lhs = vm@.map_values(|p: (String, String)| (p.0@, p.1@));
                assert(lhs =~= vms.update(i as int, (kk, vv))) by {
                    assert forall|k: int| 0 <= k < lhs.len() implies #[trigger] lhs[k]
                        == vms.update(i as int, (kk, vv))[k] by {
                        assert(lhs[k] == (vm@[k].0@, vm@[k].1@));
                        if k != i {
                            assert(vm@[k] == old(vm)@[k]);
                        }
                    }
                }
            }
            return;
        }
        proof {
            assert(vms[i as int] == (vm@[i as int].0@, vm@[i as int].1@));
        }
        i = i + 1;
    }
    proof {
        lemma_vm_find(vms, key@);
        assert(vm_find(vms, key@) is None);
    }
    let ghost kk = key@;
    let ghost vv = val@;
    vm.push((key, val));
    proof {
        let lhs = vm@.map_values(|p: (String, String)| (p.0@, p.1@));
        assert(lhs =~= vms.push((kk, vv))) by {
            assert forall|k: int| 0 <= k < lhs.len() implies #[trigger] lhs[k] == vms.push(
                (kk, vv),
            )[k] by {
                assert(lhs[k] == (vm@[k].0@, vm@[k].1@));
                if k < vms.len() {
                    assert(vm@[k] == old(vm)@[k]);
                }
            }
        }
    }
}

fn vm_put_absent_exec(vm: &mut Vec<(String, String)>, key: String, val: String)
    ensures
        final(vm)@.map_values(|p: (String, String)| (p.0@, p.1@)) == vm_put_absent(
            old(vm)@.map_values(|p: (String, String)| (p.0@, p.1@)),
            key@,
            val@,
        ),
{
    let ghost vms = vm@.map_values(|p: (String, String)| (p.0@, p.1@));
    match vm_lookup_exec(vm, key.as_str()) {
        Some(_) => {
            proof {
                lemma_vm_find(vms, key@);
            }
        },
        None => {
            proof {
                lemma_vm_find(vms, key@);
            }
            let ghost kk = key@;
            let ghost vv = val@;
            vm.push((key, val));
            proof {
                let lhs = vm@.map_values(|p: (String, String)| (p.0@, p.1@));
                assert(lhs =~= vms.push((kk, vv))) by {
                    assert forall|k: int| 0 <= k < lhs.len() implies #[trigger] lhs[k] == vms.push(
                        (kk, vv),
                    )[k] by {
                        assert(lhs[k] == (vm@[k].0@, vm@[k].1@));
                        if k < vms.len() {
                            assert(vm@[k] == old(vm)@[k]);
                        }
                    }
                }
            }
        },
    }
}

/// Builds the value lookup from the extraction result.
fn build_value_map(extracted: &Vec<QuackAttribute>) -> (r: Vec<(String, String)>)
    ensures
        r@.map_values(|p: (String, String)| (p.0@, p.1@)) == value_map_spec(extracted@),
{
    let mut vm: Vec<(String, String)> = Vec::new();
    let n = extracted.len();
    let mut i: usize = 0;
    proof {
        assert(extracted@.skip(0) =~= extracted@);
        assert(vm@.map_values(|p: (String, String)| (p.0@, p.1@)) =~= Seq::<(
            Seq<char>,
            Seq<char>,
        )>::empty());
    }
    while i < n
        invariant
            n == extracted@.len(),
            i <= n,
            value_map_spec(extracted@) == vm_fold(
                extracted@.skip(i as int),
                vm@.map_values(|p: (String, String)| (p.0@, p.1@)),
            ),
        decreases n - i,
    {
        let ghost restv = extracted@.skip(i as int);
        let ghost pre = vm@.map_values(|p: (String, String)| (p.0@, p.1@));
        proof {
            assert(restv[0] == extracted@[i as int]);
            assert(restv.drop_first() =~= extracted@.skip(i + 1));
        }
        let a = &extracted[i];
        let value_trim = match &a.value {
            Some(v) => trim_vec(&chars_vec(v.as_str())),
            None => Vec::new(),
        };
        proof {
            if a.value is None {
                assert(value_trim@ =~= Seq::<char>::empty());
            }
        }
        if value_trim.len() > 0 {
            let value = string_from_chars(&value_trim);
            let ltrim = match &a.label {
                Some(l) => trim_vec(&chars_vec(l.as_str())),
                None => Vec::new(),
            };
            let ntrim = match &a.name {
                Some(nm) => trim_vec(&chars_vec(nm.as_str())),
                None => Vec::new(),
            };
            proof {
                if a.label is None {
                    assert(ltrim@ =~= Seq::<char>::empty());
                }
                if a.name is None {
                    assert(ntrim@ =~= Seq::<char>::empty());
                }
            }
            if ltrim.len() > 0 {
                vm_put_exec(&mut vm, string_from_chars(&ltrim), value.clone());
            }
            if ntrim.len() > 0 {
                vm_put_absent_exec(&mut vm, string_from_chars(&ntrim), value);
            }
            proof {
                assert(vm@.map_values(|p: (String, String)| (p.0@, p.1@)) == vm_step(
                    pre,
                    restv[0],
                ));
            }
        } else {
            proof {
                assert(vm@.map_values(|p: (String, String)| (p.0@, p.1@)) == vm_step(
                    pre,
                    restv[0],
                ));
            }
        }
        i = i + 1;
        proof {
            assert(vm_fold(restv, pre) == vm_fold(
                extracted@.skip(i as int),
                vm@.map_values(|p: (String, String)| (p.0@, p.1@)),
            ));
        }
    }
    proof {
        assert(extracted@.skip(n as int) =~= Seq::<QuackAttribute>::empty());
    }
    vm
}

/// Computes the merge key and the hit of one attribute.
fn merge_hit_exec(a: &QuackAttribute, vm: &Vec<(String, String)>) -> (r: Option<String>)
    ensures
        ({
            let vms = vm@.map_values(|p: (String, String)| (p.0@, p.1@));
            match r {
                Some(v) => merge_hit(*a, vms) == Some(v@),
                None => merge_hit(*a, vms) is None,
            }
        }),
{
    let hidden = match a.is_visible {
        Some(b) => !b,
        None => false,
    };
    if !hidden {
        return None;
    }
    let blank = match &a.value {
        Some(v) => {
            let t = trim_vec(&chars_vec(v.as_str()));
            t.len() == 0
        },
        None => true,
    };
    if !blank {
        return None;
    }
    let ltrim = match &a.label {
        Some(l) => trim_vec(&chars_vec(l.as_str())),
        None => Vec::new(),
    };
    let ntrim = match &a.name {
        Some(nm) => trim_vec(&chars_vec(nm.as_str())),
        None => Vec::new(),
    };
    proof {
        if a.label is None {
            assert(ltrim@ =~= Seq::<char>::empty());
        }
        if a.name is None {
            assert(ntrim@ =~= Seq::<char>::empty());
        }
    }
    if ltrim.len() > 0 {
        vm_lookup_exec(vm, string_from_chars(&ltrim).as_str())
    } else if ntrim.len() > 0 {
        vm_lookup_exec(vm, string_from_chars(&ntrim).as_str())
    } else {
        None
    }
}

/// Applies the value map to one attribute list; every hit assigns the
/// value and is counted.
fn apply_to_attrs(attrs: &mut Vec<QuackAttribute>, vm: &Vec<(String, String)>) -> (count: usize)
    ensures
        ({
            let vms = vm@.map_values(|p: (String, String)| (p.0@, p.1@));
            &&& final(attrs)@.len() == old(attrs)@.len()
            &&& forall|k: int|
                0 <= k < old(attrs)@.len() ==> merged_attr_ok(
                    old(attrs)@[k],
                    #[trigger] final(attrs)@[k],
                    vms,
                )
            &&& count == merge_count(old(attrs)@, vms)
        }),
{
    let ghost vms = vm@.map_values(|p: (String, String)| (p.0@, p.1@));
    let mut count: usize = 0;
    let n = attrs.len();
    let mut i: usize = 0;
    proof {
        assert(old(attrs)@.skip(0) =~= old(attrs)@);
        lemma_merge_count_bound(old(attrs)@, vms);
    }
    while i < n
        invariant
            n == attrs@.len(),
            n == old(attrs)@.len(),
            vms == vm@.map_values(|p: (String, String)| (p.0@, p.1@)),
            i <= n,
            forall|k: int| i <= k < n ==> attrs@[k] == old(attrs)@[k],
            forall|k: int|
                0 <= k < i ==> merged_attr_ok(old(attrs)@[k], #[trigger] attrs@[k], vms),
            count + merge_count(old(attrs)@.skip(i as int), vms) == merge_count(old(attrs)@, vms),
            count <= i,
        decreases n - i,
    {
        let ghost restv = old(attrs)@.skip(i as int);
        proof {
            assert(restv[0] == old(attrs)@[i as int]);
            assert(restv.drop_first() =~= old(attrs)@.skip(i + 1));
            lemma_merge_count_bound(restv.drop_first(), vms);
            lemma_merge_count_bound(restv, vms);
        }
        let hit = merge_hit_exec(&attrs[i], vm);
        match hit {
            Some(v) => {
                let old_attr = attrs[i].duplicate();
                attrs[i] = QuackAttribute {
                    label: old_attr.label,
                    name: old_attr.name,
                    value: Some(v),
                    is_visible: old_attr.is_visible,
                };
                count = count + 1;
            },
            None => {},
        }
        i = i + 1;
    }
    proof {
        assert(old(attrs)@.skip(n as int) =~= Seq::<QuackAttribute>::empty());
    }
    count
}

/// How one raw top-level attribute looks after the merge: the decoded
/// fields merge like any attribute, the unknown keys and the decoding
/// flag stay untouched.
pub open spec fn merged_raw_ok(old_r: QuackRawAttr, new_r: QuackRawAttr, vm: ValueMap) -> bool {
    &&& merged_attr_ok(old_r.attr, new_r.attr, vm)
    &&& new_r.decoded == old_r.decoded
    &&& new_r.rest == old_r.rest
}

pub open spec fn merge_count_raw(ras: Seq<QuackRawAttr>, vm: ValueMap) -> int
    decreases ras.len(),
{
    if ras.len() == 0 {
        0
    } else {
        (if merge_hit(ras[0].attr, vm) is Some {
            1int
        } else {
            0int
        }) + merge_count_raw(ras.drop_first(), vm)
    }
}

proof fn lemma_merge_count_raw_bound(ras: Seq<QuackRawAttr>, vm: ValueMap)
    ensures
        0 <= merge_count_raw(ras, vm) <= ras.len(),
    decreases ras.len(),
{
    if ras.len() > 0 {
        lemma_merge_count_raw_bound(ras.drop_first(), vm);
    }
}

fn apply_to_raw(ras: &mut Vec<QuackRawAttr>, vm: &Vec<(String, String)>) -> (count: usize)
    ensures
        ({
            let vms = vm@.map_values(|p: (String, String)| (p.0@, p.1@));
            &&& final(ras)@.len() == old(ras)@.len()
            &&& forall|k: int|
                0 <= k < old(ras)@.len() ==> merged_raw_ok(
                    old(ras)@[k],
                    #[trigger] final(ras)@[k],
                    vms,
                )
            &&& count == merge_count_raw(old(ras)@, vms)
        }),
{
    let ghost vms = vm@.map_values(|p: (String, String)| (p.0@, p.1@));
    let mut count: usize = 0;
    let n = ras.len();
    let mut i: usize = 0;
    proof {
        assert(old(ras)@.skip(0) =~= old(ras)@);
        lemma_merge_count_raw_bound(old(ras)@, vms);
    }
    while i < n
        invariant
            n == ras@.len(),
            n == old(ras)@.len(),
            vms == vm@.map_values(|p: (String, String)| (p.0@, p.1@)),
            i <= n,
            forall|k: int| i <= k < n ==> ras@[k] == old(ras)@[k],
            forall|k: int| 0 <= k < i ==> merged_raw_ok(old(ras)@[k], #[trigger] ras@[k], vms),
            count + merge_count_raw(old(ras)@.skip(i as int), vms) == merge_count_raw(
                old(ras)@,
                vms,
            ),
            count <= i,
        decreases n - i,
    {
        let ghost restv = old(ras)@.skip(i as int);
        proof {
            assert(restv[0] == old(ras)@[i as int]);
            assert(restv.drop_first() =~= old(ras)@.skip(i + 1));
            lemma_merge_count_raw_bound(restv.drop_first(), vms);
            lemma_merge_count_raw_bound(restv, vms);
        }
        let hit = merge_hit_exec(&ras[i].attr, vm);
        match hit {
            Some(v) => {
                let old_attr = ras[i].attr.duplicate();
                let rest = ras[i].rest.clone();
                let decoded = ras[i].decoded;
                ras[i] = QuackRawAttr {
                    attr: QuackAttribute {
                        label: old_attr.label,
                        name: old_attr.name,
                        value: Some(v),
                        is_visible: old_attr.is_visible,
                    },
                    decoded,
                    rest,
                };
                count = count + 1;
            },
            None => {},
        }
        i = i + 1;
    }
    proof {
        assert(old(ras)@.skip(n as int) =~= Seq::<QuackRawAttr>::empty());
    }
    count
}

proof fn lemma_merge_hit_empty(vms: ValueMap)
    requires
        vms.len() == 0,
    ensures
        forall|a: QuackAttribute| #[trigger] merge_hit(a, vms) is None,
{
    assert forall|a: QuackAttribute| #[trigger] merge_hit(a, vms) is None by {
        if hidden_blank(a) {
            match merge_key(a) {
                Some(k) => {
                    assert(vm_find(vms, k) is None);
                },
                None => {},
            }
        }
    }
}

proof fn lemma_merge_count_empty(attrs: Seq<QuackAttribute>, vms: ValueMap)
    requires
        vms.len() == 0,
    ensures
        merge_count(attrs, vms) == 0,
    decreases attrs.len(),
{
    lemma_merge_hit_empty(vms);
    if attrs.len() > 0 {
        lemma_merge_count_empty(attrs.drop_first(), vms);
    }
}

proof fn lemma_merge_count_raw_empty(ras: Seq<QuackRawAttr>, vms: ValueMap)
    requires
        vms.len() == 0,
    ensures
        merge_count_raw(ras, vms) == 0,
    decreases ras.len(),
{
    lemma_merge_hit_empty(vms);
    if ras.len() > 0 {
        lemma_merge_count_raw_empty(ras.drop_first(), vms);
    }
}

/// How the optional attribute lists of the first character look after
/// the merge.
pub open spec fn merged_opt_attrs_ok(
    o: Option<Vec<QuackAttribute>>,
    nv: Option<Vec<QuackAttribute>>,
    vm: ValueMap,
) -> bool {
    match (o, nv) {
        (Some(ov), Some(nn)) => nn@.len() == ov@.len() && forall|k: int|
            0 <= k < ov@.len() ==> merged_attr_ok(ov@[k], #[trigger] nn@[k], vm),
        (None, None) => true,
        _ => false,
    }
}

/// How the first character looks after the merge: only its three
/// attribute lists change.
pub open spec fn merged_item_ok(
    o: crate::quack::QuackCharListItem,
    nv: crate::quack::QuackCharListItem,
    vm: ValueMap,
) -> bool {
    &&& nv.name == o.name
    &&& nv.prompt == o.prompt
    &&& nv.picture == o.picture
    &&& nv.extra == o.extra
    &&& merged_opt_attrs_ok(o.attrs, nv.attrs, vm)
    &&& merged_opt_attrs_ok(o.advise_attrs, nv.advise_attrs, vm)
    &&& merged_opt_attrs_ok(o.custom_attrs, nv.custom_attrs, vm)
}

/// The number of merge hits an optional attribute list yields.
pub open spec fn opt_merge_count(o: Option<Vec<QuackAttribute>>, vm: ValueMap) -> int {
    match o {
        Some(v) => merge_count(v@, vm),
        None => 0,
    }
}

/// The total number of assignments the merge applies to an info.
pub open spec fn info_merge_count(info: QuackCharacterInfo, vm: ValueMap) -> int {
    let raw = match info.custom_attrs {
        Some(ras) => merge_count_raw(ras@, vm),
        None => 0,
    };
    let lists = match info.char_list {
        Some(l) => if l@.len() > 0 {
            opt_merge_count(l@[0].attrs, vm) + opt_merge_count(l@[0].advise_attrs, vm)
                + opt_merge_count(l@[0].custom_attrs, vm)
        } else {
            0
        },
        None => 0,
    };
    raw + lists
}

/// Merges extracted hidden values back into the character info at all
/// four attribute locations: the top-level raw array (its unknown
/// fields kept) and the first character's three attribute lists.
/// Returns how many assignments were applied; an empty value map
/// changes nothing.
pub fn apply_hidden_settings(info: &mut QuackCharacterInfo, extracted: &Vec<QuackAttribute>) -> (
    applied: usize)
    ensures
        ({
            let vms = value_map_spec(extracted@);
            &&& final(info).name == old(info).name
            &&& final(info).chat_info == old(info).chat_info
            &&& final(info).characterbooks == old(info).characterbooks
            &&& final(info).prologue == old(info).prologue
            &&& final(info).greeting == old(info).greeting
            &&& final(info).tags == old(info).tags
            &&& final(info).picture == old(info).picture
            &&& final(info).personality == old(info).personality
            &&& final(info).system_prompt == old(info).system_prompt
            &&& vms.len() == 0 ==> *final(info) == *old(info) && applied == 0
            &&& match (old(info).custom_attrs, final(info).custom_attrs) {
                (Some(o), Some(nv)) => nv@.len() == o@.len() && forall|k: int|
                    0 <= k < o@.len() ==> merged_raw_ok(o@[k], #[trigger] nv@[k], vms),
                (None, None) => true,
                _ => false,
            }
            &&& match (old(info).char_list, final(info).char_list) {
                (Some(o), Some(nv)) => {
                    &&& nv@.len() == o@.len()
                    &&& forall|k: int| 1 <= k < o@.len() ==> nv@[k] == #[trigger] o@[k]
                    &&& o@.len() > 0 ==> merged_item_ok(o@[0], nv@[0], vms)
                },
                (None, None) => true,
                _ => false,
            }
            &&& info_merge_count(*old(info), vms) <= usize::MAX ==> applied == info_merge_count(
                *old(info),
                vms,
            )
        }),
{
    let vm = build_value_map(extracted);
    if vm.len() == 0 {
        proof {
            let vms = value_map_spec(extracted@);
            assert(vm@.map_values(|p: (String, String)| (p.0@, p.1@)).len() == 0);
            assert(vms.len() == 0);
            lemma_merge_hit_empty(vms);
            match &info.custom_attrs {
                Some(o) => {
                    lemma_merge_count_raw_empty(o@, vms);
                    assert(forall|k: int|
                        0 <= k < o@.len() ==> merged_raw_ok(o@[k], #[trigger] o@[k], vms));
                },
                None => {},
            }
            match &info.char_list {
                Some(o) => {
                    if o@.len() > 0 {
                        match o@[0].attrs {
                            Some(v) => {
                                lemma_merge_count_empty(v@, vms);
                                assert(forall|k: int|
                                    0 <= k < v@.len() ==> merged_attr_ok(
                                        v@[k],
                                        #[trigger] v@[k],
                                        vms,
                                    ));
                            },
                            None => {},
                        }
                        match o@[0].advise_attrs {
                            Some(v) => {
                                lemma_merge_count_empty(v@, vms);
                                assert(forall|k: int|
                                    0 <= k < v@.len() ==> merged_attr_ok(
                                        v@[k],
                                        #[trigger] v@[k],
                                        vms,
                                    ));
                            },
                            None => {},
                        }
                        match o@[0].custom_attrs {
                            Some(v) => {
                                lemma_merge_count_empty(v@, vms);
                                assert(forall|k: int|
                                    0 <= k < v@.len() ==> merged_attr_ok(
                                        v@[k],
                                        #[trigger] v@[k],
                                        vms,
                                    ));
                            },
                            None => {},
                        }
                    }
                },
                None => {},
            }
        }
        return 0;
    }
    let mut applied: usize = 0;
    let mut custom = None;
    core::mem::swap(&mut custom, &mut info.custom_attrs);
    match custom {
        Some(mut ras) => {
            let c = apply_to_raw(&mut ras, &vm);
            proof {
                lemma_merge_count_raw_bound(ras@, vm@.map_values(|p: (String, String)| (p.0@, p.1@)));
            }
            applied = c;
            info.custom_attrs = Some(ras);
        },
        None => {
            info.custom_attrs = None;
        },
    }
    let mut clist = None;
    core::mem::swap(&mut clist, &mut info.char_list);
    match clist {
        Some(mut list) => {
            if list.len() > 0 {
                let mut first = list.remove(0);
                let mut a1 = None;
                core::mem::swap(&mut a1, &mut first.attrs);
                match a1 {
                    Some(mut v) => {
                        let c = apply_to_attrs(&mut v, &vm);
                        if usize::MAX - applied >= c {
                            applied = applied + c;
                        }
                        first.attrs = Some(v);
                    },
                    None => {
                        first.attrs = None;
                    },
                }
                let mut a2 = None;
                core::mem::swap(&mut a2, &mut first.advise_attrs);
                match a2 {
                    Some(mut v) => {
                        let c = apply_to_attrs(&mut v, &vm);
                        if usize::MAX - applied >= c {
                            applied = applied + c;
                        }
                        first.advise_attrs = Some(v);
                    },
                    None => {
                        first.advise_attrs = None;
                    },
                }
                let mut a3 = None;
                core::mem::swap(&mut a3, &mut first.custom_attrs);
                match a3 {
                    Some(mut v) => {
                        let c = apply_to_attrs(&mut v, &vm);
                        if usize::MAX - applied >= c {
                            applied = applied + c;
                        }
                        first.custom_attrs = Some(v);
                    },
                    None => {
                        first.custom_attrs = None;
                    },
                }
                list.insert(0, first);
            }
            info.char_list = Some(list);
        },
        None => {
            info.char_list = None;
        },
    }
    applied
}


// ---------------------------------------------------------------------------
// Import input detection, previews and batch bookkeeping
// ---------------------------------------------------------------------------

/// Whether a pasted input is a JSON object: after trimming and
/// stripping a BOM, it starts with `{`.
pub open spec fn json_object_input(s: Seq<char>) -> bool {
    let t = trim_seq(s);
    let t2 = if t.len() > 0 && t[0] == '\u{feff}' {
        t.drop_first()
    } else {
        t
    };
    t2.len() > 0 && t2[0] == '{'
}

/// Detects the manual-JSON import path.
pub fn looks_like_json_object(input: &str) -> (r: bool)
    ensures
        r == json_object_input(input@),
{
    let chars = chars_vec(input);
    let t = trim_vec(&chars);
    if t.len() == 0 {
        return false;
    }
    let skip_bom: usize = if t[0] == '\u{feff}' {
        1
    } else {
        0
    };
    if t.len() <= skip_bom {
        proof {
            assert(trim_seq(input@).drop_first().len() == 0);
        }
        return false;
    }
    let c = t[skip_bom];
    proof {
        if skip_bom == 1 {
            assert(trim_seq(input@).drop_first()[0] == t@[1]);
        }
    }
    c == '{'
}

/// Picks the first non-empty entry list of the three shapes a pasted
/// lorebook JSON may take.
pub fn first_nonempty_entries(
    a: Vec<crate::quack::QuackLorebookEntry>,
    b: Vec<crate::quack::QuackLorebookEntry>,
    c: Vec<crate::quack::QuackLorebookEntry>,
) -> (r: Vec<crate::quack::QuackLorebookEntry>)
    ensures
        a@.len() > 0 ==> r@ == a@,
        a@.len() == 0 && b@.len() > 0 ==> r@ == b@,
        a@.len() == 0 && b@.len() == 0 ==> r@ == c@,
{
    if a.len() > 0 {
        a
    } else if b.len() > 0 {
        b
    } else {
        c
    }
}

/// How many of the batch items succeeded.
pub open spec fn count_true(s: Seq<bool>) -> int
    decreases s.len(),
{
    if s.len() == 0 {
        0
    } else {
        (if s[0] {
            1int
        } else {
            0int
        }) + count_true(s.drop_first())
    }
}

proof fn lemma_count_true_bound(s: Seq<bool>)
    ensures
        0 <= count_true(s) <= s.len(),
    decreases s.len(),
{
    if s.len() > 0 {
        lemma_count_true_bound(s.drop_first());
    }
}

/// Tallies a batch: total, succeeded, failed; the whole batch succeeds
/// only when nothing failed.
pub fn summarize_batch(successes: &Vec<bool>) -> (r: (usize, usize, usize, bool))
    ensures
        r.0 == successes@.len(),
        r.1 == count_true(successes@),
        r.2 == successes@.len() - count_true(successes@),
        r.3 == (count_true(successes@) == successes@.len()),
{
    let n = successes.len();
    let mut ok: usize = 0;
    let mut i: usize = 0;
    proof {
        assert(successes@.skip(0) =~= successes@);
        lemma_count_true_bound(successes@);
    }
    while i < n
        invariant
            n == successes@.len(),
            i <= n,
            ok <= i,
            ok + count_true(successes@.skip(i as int)) == count_true(successes@),
        decreases n - i,
    {
        let ghost restv = successes@.skip(i as int);
        proof {
            assert(restv[0] == successes@[i as int]);
            assert(restv.drop_first() =~= successes@.skip(i + 1));
            lemma_count_true_bound(restv.drop_first());
            lemma_count_true_bound(restv);
        }
        if successes[i] {
            ok = ok + 1;
        }
        i = i + 1;
    }
    proof {
        assert(successes@.skip(n as int) =~= Seq::<bool>::empty());
        lemma_count_true_bound(successes@);
    }
    (n, ok, n - ok, ok == n)
}

/// The single-line, bounded form of the extractor's stderr: newlines
/// become ` | `; over 500 characters, the first and last 250 are kept
/// around an ellipsis.
pub open spec fn debug_warning_spec(stderr: Seq<char>) -> Option<Seq<char>> {
    let t = trim_seq(stderr);
    if t.len() == 0 {
        None
    } else {
        let one_line = join_seq(split_seq(t, '\n'), " | "@);
        let truncated = if one_line.len() > 500 {
            one_line.take(250) + "\u{2026}"@ + one_line.skip(one_line.len() - 250)
        } else {
            one_line
        };
        Some("sidecar debug: "@ + truncated)
    }
}

/// Renders the extractor's stderr as a single bounded warning line.
pub fn sidecar_debug_warning(stderr: &str) -> (r: Option<String>)
    ensures
        match r {
            Some(w) => debug_warning_spec(stderr@) == Some(w@),
            None => debug_warning_spec(stderr@) is None,
        },
{
    let chars = chars_vec(stderr);
    let t = trim_vec(&chars);
    if t.len() == 0 {
        return None;
    }
    let pieces = split_char(&t, '\n');
    let mut piece_strs: Vec<String> = Vec::new();
    let n = pieces.len();
    let mut i: usize = 0;
    while i < n
        invariant
            n == pieces@.len(),
            i <= n,
            piece_strs@.len() == i,
            forall|k: int| 0 <= k < i ==> piece_strs@[k]@ == pieces@[k]@,
        decreases n - i,
    {
        piece_strs.push(string_from_chars(&pieces[i]));
        i = i + 1;
    }
    proof {
        let lhs = piece_strs@.map_values(|s: String| s@);
        assert(lhs =~= pieces.deep_view()) by {
            assert forall|k: int| 0 <= k < lhs.len() implies #[trigger] lhs[k]
                == pieces.deep_view()[k] by {
                assert(lhs[k] == piece_strs@[k]@);
                assert(pieces.deep_view()[k] == pieces@[k]@);
            }
        }
    }
    let one_line = crate::strutil::join_with(&piece_strs, " | ");
    let oc = chars_vec(one_line.as_str());
    let m = oc.len();
    let truncated: String = if m > 500 {
        let head = crate::strutil::string_of_range(&oc, 0, 250);
        let tail = crate::strutil::string_of_range(&oc, m - 250, m);
        let mid = concat2(head.as_str(), "\u{2026}");
        let whole = concat2(mid.as_str(), tail.as_str());
        proof {
            assert(oc@.subrange(0, 250) =~= oc@.take(250));
            assert(oc@.subrange(m - 250, m as int) =~= oc@.skip(m - 250));
        }
        whole
    } else {
        one_line
    };
    Some(concat2("sidecar debug: ", truncated.as_str()))
}

// ---------------------------------------------------------------------------
// Previews
// ---------------------------------------------------------------------------

/// The preview's intro text: the intro, else the description, cut to
/// 197 characters plus an ellipsis when longer than 200.
pub open spec fn preview_intro_spec(info: QuackCharacterInfo) -> Seq<char> {
    let t = match info.intro {
        Some(i) => i@,
        None => match info.description {
            Some(d) => d@,
            None => Seq::<char>::empty(),
        },
    };
    if t.len() > 200 {
        t.take(197) + "..."@
    } else {
        t
    }
}

/// The preview's name: the first character's name, else the top-level
/// one.
pub open spec fn preview_name_spec(info: QuackCharacterInfo) -> Seq<char> {
    match crate::quack::first_char_of(info) {
        Some(c) => match c.name {
            Some(n) => n@,
            None => info.name@,
        },
        None => info.name@,
    }
}

/// Up to ten of the upstream tags.
pub open spec fn preview_tags_spec(info: QuackCharacterInfo) -> Seq<Seq<char>> {
    let base = match info.tags {
        Some(ts) => ts@.map_values(|s: String| s@),
        None => Seq::<Seq<char>>::empty(),
    };
    if base.len() > 10 {
        base.take(10)
    } else {
        base
    }
}

/// How many lorebook entries the info's character books hold.
pub open spec fn book_entry_count(books: Option<Vec<crate::quack::QuackLorebookWrapper>>) -> int {
    crate::quack::flatten_books(books).len() as int
}

/// Builds the lightweight preview of an acquisition: name, creator, a
/// bounded intro, up to ten tags, and the attribute and lorebook entry
/// counts.  The source field is left empty for the caller to fill.
pub fn extract_preview_from_quack(info: &QuackCharacterInfo) -> (r: PreviewData)
    requires
        crate::quack::collect_attrs_spec(*info).len() < i32::MAX,
        crate::quack::flatten_books(info.characterbooks).len() < i32::MAX,
    ensures
        r.name@ == preview_name_spec(*info),
        r.creator@ == crate::quack::creator_spec(*info),
        r.intro@ == preview_intro_spec(*info),
        r.tags@.map_values(|s: String| s@) == preview_tags_spec(*info),
        r.attr_count == crate::quack::collect_attrs_spec(*info).len(),
        r.lorebook_count == book_entry_count(info.characterbooks),
        r.source@ == Seq::<char>::empty(),
{
    let name: String = match &info.char_list {
        Some(list) => {
            if list.len() > 0 {
                match &list[0].name {
                    Some(n) => n.clone(),
                    None => info.name.clone(),
                }
            } else {
                info.name.clone()
            }
        },
        None => info.name.clone(),
    };
    let creator: String = match &info.author_name {
        Some(a) => a.clone(),
        None => match &info.creator {
            Some(c) => c.clone(),
            None => String::new(),
        },
    };
    let intro_base: String = match &info.intro {
        Some(i) => i.clone(),
        None => match &info.description {
            Some(d) => d.clone(),
            None => String::new(),
        },
    };
    let ic = chars_vec(intro_base.as_str());
    let intro: String = if ic.len() > 200 {
        let head = crate::strutil::string_of_range(&ic, 0, 197);
        proof {
            assert(ic@.subrange(0, 197) =~= ic@.take(197));
        }
        concat2(head.as_str(), "...")
    } else {
        intro_base
    };
    let tags: Vec<String> = match &info.tags {
        Some(ts) => {
            let mut out: Vec<String> = Vec::new();
            let n = ts.len();
            let limit: usize = if n > 10 {
                10
            } else {
                n
            };
            let mut i: usize = 0;
            while i < limit
                invariant
                    limit <= ts@.len(),
                    i <= limit,
                    out@.len() == i,
                    forall|k: int| 0 <= k < i ==> out@[k]@ == ts@[k]@,
                decreases limit - i,
            {
                out.push(ts[i].clone());
                i = i + 1;
            }
            proof {
                let lhs = out@.map_values(|s: String| s@);
                assert(lhs =~= preview_tags_spec(*info)) by {
                    assert forall|k: int| 0 <= k < lhs.len() implies #[trigger] lhs[k]
                        == preview_tags_spec(*info)[k] by {
                        assert(lhs[k] == out@[k]@);
                        assert(preview_tags_spec(*info)[k] == ts@.map_values(|s: String| s@)[k]);
                    }
                }
            }
            out
        },
        None => {
            let out: Vec<String> = Vec::new();
            proof {
                assert(out@.map_values(|s: String| s@) =~= Seq::<Seq<char>>::empty());
            }
            out
        },
    };
    let attrs = crate::quack::collect_all_attrs(info);
    let flat = crate::quack::flatten_books_exec_pub(&info.characterbooks);
    PreviewData {
        name,
        creator,
        intro,
        tags,
        attr_count: attrs.len() as i32,
        lorebook_count: flat.len() as i32,
        source: String::new(),
    }
}

// ---------------------------------------------------------------------------
// Avatar fetch policy
// ---------------------------------------------------------------------------

/// Whether a transport failure is worth retrying: the message names a
/// timeout, a body error, or the connection.
pub open spec fn retryable_message(msg: Seq<char>) -> bool {
    let l = lower_seq(msg);
    contains_seq(l, "timed out"@) || contains_seq(l, "timeout"@) || contains_seq(
        l,
        "body error"@,
    ) || contains_seq(l, "connection"@)
}

/// Classifies a transport failure message for the retry loop.
pub fn is_retryable_error_message(msg: &str) -> (r: bool)
    ensures
        r == retryable_message(msg@),
{
    let l = crate::strutil::ascii_lower(&chars_vec(msg));
    contains_sub(&l, &chars_vec("timed out")) || contains_sub(&l, &chars_vec("timeout"))
        || contains_sub(&l, &chars_vec("body error")) || contains_sub(
        &l,
        &chars_vec("connection"),
    )
}

/// The back-off before the next avatar attempt.
pub fn retry_backoff_ms(attempt: u64) -> (r: u64)
    requires
        attempt <= 1000,
    ensures
        r == 250 * attempt,
{
    250 * attempt
}

/// The avatar fetch timeout: the parsed environment value, defaulted
/// to 30, clamped into `5..=180`.
pub fn parse_avatar_timeout(v: Option<&String>) -> (r: u64)
    ensures
        5 <= r <= 180,
        v is None ==> r == 30,
{
    let raw = crate::sidecar::parse_timeout_secs(v, 30);
    if raw < 5 {
        5
    } else if raw > 180 {
        180
    } else {
        raw
    }
}

} // verus!
