//! HTTP facade logic: response classification, browser-emulation
//! profile selection, version warnings, and the SSE stream collector.
//!
//! The transport itself (a TLS-fingerprinting client) lives outside the
//! library; these functions decide what its inputs and outputs mean.

use vstd::prelude::*;
use crate::error::ArcaferryError;
use crate::strutil::{
    chars_vec,
    concat2,
    contains_seq,
    contains_sub,
    digit_run_len,
    digits_value,
    dec_chars,
    is_digit,
    parse_u32_run,
    split_char,
    split_seq,
    starts_with_seq,
    starts_with_sub,
    string_from_chars,
    trim_seq,
    trim_vec,
    u32_to_string,
};

verus! {

// ---------------------------------------------------------------------------
// Emulation profiles
// ---------------------------------------------------------------------------

/// A browser family an emulation profile can imitate.
#[derive(Debug, Clone, Copy, PartialEq, Eq, Structural)]
pub enum BrowserKind {
    Chrome,
    Edge,
    Firefox,
    Safari,
    Opera,
}

/// The host OS family the emulation declares.
#[derive(Debug, Clone, Copy, PartialEq, Eq, Structural)]
pub enum OsKind {
    MacOs,
    Linux,
    Windows,
}

/// One available emulation profile: a browser family and its version.
#[derive(Debug, Clone, Copy, PartialEq, Eq, Structural)]
pub struct EmulationProfile {
    pub browser: BrowserKind,
    pub version: u32,
}

/// A version range of available profiles.
#[derive(Debug, Clone, Copy, PartialEq, Eq, Structural)]
pub struct BrowserVersionRange {
    pub min: u32,
    pub max: u32,
}

/// The ranges offered per browser family.
#[derive(Debug, Clone)]
pub struct SupportedBrowsers {
    pub chrome: Option<BrowserVersionRange>,
    pub edge: Option<BrowserVersionRange>,
    pub firefox: Option<BrowserVersionRange>,
    pub safari: Option<BrowserVersionRange>,
}

/// The range of versions of one browser family, folded left to right.
pub open spec fn range_step(acc: Option<BrowserVersionRange>, p: EmulationProfile, kind: BrowserKind)
    -> Option<BrowserVersionRange> {
    if p.browser == kind {
        match acc {
            None => Some(BrowserVersionRange { min: p.version, max: p.version }),
            Some(r) => Some(
                BrowserVersionRange {
                    min: if p.version < r.min {
                        p.version
                    } else {
                        r.min
                    },
                    max: if p.version > r.max {
                        p.version
                    } else {
                        r.max
                    },
                },
            ),
        }
    } else {
        acc
    }
}

pub open spec fn range_fold(
    ps: Seq<EmulationProfile>,
    kind: BrowserKind,
    acc: Option<BrowserVersionRange>,
) -> Option<BrowserVersionRange>
    decreases ps.len(),
{
    if ps.len() == 0 {
        acc
    } else {
        range_fold(ps.drop_first(), kind, range_step(acc, ps[0], kind))
    }
}

/// The supported version range of a browser family.
pub open spec fn range_spec(ps: Seq<EmulationProfile>, kind: BrowserKind) -> Option<
    BrowserVersionRange,
> {
    range_fold(ps, kind, None)
}

fn range_of(profiles: &Vec<EmulationProfile>, kind: BrowserKind) -> (r: Option<BrowserVersionRange>)
    ensures
        r == range_spec(profiles@, kind),
{
    let mut acc: Option<BrowserVersionRange> = None;
    let n = profiles.len();
    let mut i: usize = 0;
    proof {
        assert(profiles@.skip(0) =~= profiles@);
    }
    while i < n
        invariant
            n == profiles@.len(),
            i <= n,
            range_spec(profiles@, kind) == range_fold(profiles@.skip(i as int), kind, acc),
        decreases n - i,
    {
        let ghost restv = profiles@.skip(i as int);
        proof {
            assert(restv[0] == profiles@[i as int]);
            assert(restv.drop_first() =~= profiles@.skip(i + 1));
        }
        let p = profiles[i];
        if p.browser == kind {
            acc = match acc {
                None => Some(BrowserVersionRange { min: p.version, max: p.version }),
                Some(r) => Some(
                    BrowserVersionRange {
                        min: if p.version < r.min {
                            p.version
                        } else {
                            r.min
                        },
                        max: if p.version > r.max {
                            p.version
                        } else {
                            r.max
                        },
                    },
                ),
            };
        }
        i = i + 1;
    }
    proof {
        assert(profiles@.skip(n as int) =~= Seq::<EmulationProfile>::empty());
    }
    acc
}

/// The version ranges of the four browser families the warning logic
/// reports.
pub fn get_supported_browsers(profiles: &Vec<EmulationProfile>) -> (r: SupportedBrowsers)
    ensures
        r.chrome == range_spec(profiles@, BrowserKind::Chrome),
        r.edge == range_spec(profiles@, BrowserKind::Edge),
        r.firefox == range_spec(profiles@, BrowserKind::Firefox),
        r.safari == range_spec(profiles@, BrowserKind::Safari),
{
    SupportedBrowsers {
        chrome: range_of(profiles, BrowserKind::Chrome),
        edge: range_of(profiles, BrowserKind::Edge),
        firefox: range_of(profiles, BrowserKind::Firefox),
        safari: range_of(profiles, BrowserKind::Safari),
    }
}

/// Absolute distance between two versions.
pub open spec fn version_dist(v: u32, t: u32) -> int {
    if v >= t {
        v - t
    } else {
        t - v
    }
}

/// The running best profile of a family: replaced only when a later
/// profile is strictly closer, so the earliest closest profile wins.
pub open spec fn best_step(
    acc: Option<EmulationProfile>,
    p: EmulationProfile,
    kind: BrowserKind,
    target: u32,
) -> Option<EmulationProfile> {
    if p.browser != kind {
        acc
    } else {
        match acc {
            None => Some(p),
            Some(b) => if version_dist(p.version, target) < version_dist(b.version, target) {
                Some(p)
            } else {
                Some(b)
            },
        }
    }
}

pub open spec fn best_fold(
    ps: Seq<EmulationProfile>,
    kind: BrowserKind,
    target: u32,
    acc: Option<EmulationProfile>,
) -> Option<EmulationProfile>
    decreases ps.len(),
{
    if ps.len() == 0 {
        acc
    } else {
        best_fold(ps.drop_first(), kind, target, best_step(acc, ps[0], kind, target))
    }
}

/// The running latest Chrome profile; ties keep the later profile.
pub open spec fn latest_chrome_step(acc: Option<EmulationProfile>, p: EmulationProfile) -> Option<
    EmulationProfile,
> {
    if p.browser == BrowserKind::Chrome {
        match acc {
            None => Some(p),
            Some(b) => if p.version >= b.version {
                Some(p)
            } else {
                Some(b)
            },
        }
    } else {
        acc
    }
}

pub open spec fn latest_chrome_fold(
    ps: Seq<EmulationProfile>,
    acc: Option<EmulationProfile>,
) -> Option<EmulationProfile>
    decreases ps.len(),
{
    if ps.len() == 0 {
        acc
    } else {
        latest_chrome_fold(ps.drop_first(), latest_chrome_step(acc, ps[0]))
    }
}

/// What `find_closest_emulation` returns: the earliest profile of the
/// family with minimal version distance; else the latest Chrome
/// profile; else the first profile of the list; `None` only when the
/// list is empty.
pub open spec fn closest_spec(
    ps: Seq<EmulationProfile>,
    kind: BrowserKind,
    target: u32,
) -> Option<EmulationProfile> {
    match best_fold(ps, kind, target, None) {
        Some(p) => Some(p),
        None => match latest_chrome_fold(ps, None) {
            Some(c) => Some(c),
            None => if ps.len() > 0 {
                Some(ps[0])
            } else {
                None
            },
        },
    }
}

/// Picks the profile of the family whose version is closest to the
/// target, falling back to the newest Chrome, then to the first
/// profile available.
pub fn find_closest_emulation(
    profiles: &Vec<EmulationProfile>,
    kind: BrowserKind,
    target: u32,
) -> (r: Option<EmulationProfile>)
    ensures
        r == closest_spec(profiles@, kind, target),
{
    let mut best: Option<EmulationProfile> = None;
    let mut chrome: Option<EmulationProfile> = None;
    let n = profiles.len();
    let mut i: usize = 0;
    proof {
        assert(profiles@.skip(0) =~= profiles@);
    }
    while i < n
        invariant
            n == profiles@.len(),
            i <= n,
            best_fold(profiles@, kind, target, None) == best_fold(
                profiles@.skip(i as int),
                kind,
                target,
                best,
            ),
            latest_chrome_fold(profiles@, None) == latest_chrome_fold(
                profiles@.skip(i as int),
                chrome,
            ),
        decreases n - i,
    {
        let ghost restv = profiles@.skip(i as int);
        proof {
            assert(restv[0] == profiles@[i as int]);
            assert(restv.drop_first() =~= profiles@.skip(i + 1));
        }
        let p = profiles[i];
        if p.browser == kind {
            best = match best {
                None => Some(p),
                Some(b) => {
                    let dp = if p.version >= target {
                        p.version - target
                    } else {
                        target - p.version
                    };
                    let db = if b.version >= target {
                        b.version - target
                    } else {
                        target - b.version
                    };
                    if dp < db {
                        Some(p)
                    } else {
                        Some(b)
                    }
                },
            };
        }
        if p.browser == BrowserKind::Chrome {
            chrome = match chrome {
                None => Some(p),
                Some(b) => if p.version >= b.version {
                    Some(p)
                } else {
                    Some(b)
                },
            };
        }
        i = i + 1;
    }
    proof {
        assert(profiles@.skip(n as int) =~= Seq::<EmulationProfile>::empty());
    }
    match best {
        Some(p) => Some(p),
        None => match chrome {
            Some(c) => Some(c),
            None => {
                if profiles.len() > 0 {
                    Some(profiles[0])
                } else {
                    None
                }
            },
        },
    }
}

// ---------------------------------------------------------------------------
// User-agent parsing
// ---------------------------------------------------------------------------

/// The version number following the first occurrence of `pat` that is
/// followed by at least one digit: the whole digit run's value, or
/// `None` when no such occurrence exists.
pub open spec fn version_after(s: Seq<char>, pat: Seq<char>) -> Option<int>
    decreases s.len(),
{
    if s.len() == 0 || s.len() < pat.len() {
        None
    } else if s.take(pat.len() as int) == pat && digit_run_len(s.skip(pat.len() as int)) > 0 {
        Some(
            digits_value(
                s.skip(pat.len() as int).take(digit_run_len(s.skip(pat.len() as int))),
            ),
        )
    } else {
        version_after(s.drop_first(), pat)
    }
}

/// Scans for `pat` followed by digits; hands back the digit run's
/// value when it fits a `u32`.
pub fn find_version_after(ua: &Vec<char>, pat: &Vec<char>) -> (r: Option<u32>)
    requires
        pat@.len() > 0,
    ensures
        match r {
            Some(v) => version_after(ua@, pat@) == Some(v as int),
            None => match version_after(ua@, pat@) {
                Some(x) => x > u32::MAX,
                None => true,
            },
        },
{
    let n = ua.len();
    let m = pat.len();
    let mut i: usize = 0;
    proof {
        assert(ua@.skip(0) =~= ua@);
    }
    while m <= n - i
        invariant
            n == ua@.len(),
            m == pat@.len(),
            m > 0,
            i <= n,
            version_after(ua@, pat@) == version_after(ua@.skip(i as int), pat@),
        decreases n - i,
    {
        let ghost restv = ua@.skip(i as int);
        proof {
            assert(restv.drop_first() =~= ua@.skip(i + 1));
        }
        let here = crate::strutil::match_at(ua, pat, i) && {
            let after = i + m;
            after < n && '0' <= ua[after] && ua[after] <= '9'
        };
        proof {
            assert(restv.take(m as int) =~= ua@.subrange(i as int, i + m));
            assert(restv.skip(m as int) =~= ua@.skip(i + m));
            if i + m < n {
                assert(restv.skip(m as int)[0] == ua@[i + m]);
            }
        }
        if here {
            let (val, _end) = parse_u32_run(ua, i + m);
            proof {
                let tail = ua@.skip(i + m);
                assert(tail.len() > 0);
                assert(tail[0] == ua@[i + m]);
                assert(is_digit(tail[0]));
                crate::strutil::lemma_digit_run(tail);
                assert(digit_run_len(tail) > 0);
                let run = ua@.subrange(i + m, i + m + digit_run_len(tail));
                assert(run =~= tail.take(digit_run_len(tail)));
                assert(restv.take(m as int) =~= pat@);
            }
            return match val {
                Some(v) => Some(v),
                None => None,
            };
        }
        proof {
            if restv.take(m as int) == pat@ {
                assert(digit_run_len(restv.skip(m as int)) == 0);
            }
        }
        i = i + 1;
    }
    proof {
        assert(version_after(ua@.skip(i as int), pat@) is None);
    }
    None
}

/// The OS family a user agent declares: macOS, Linux (but not
/// Android), else Windows.
pub open spec fn os_spec(ua: Seq<char>) -> OsKind {
    if contains_seq(ua, "Macintosh"@) || contains_seq(ua, "Mac OS"@) {
        OsKind::MacOs
    } else if contains_seq(ua, "Linux"@) && !contains_seq(ua, "Android"@) {
        OsKind::Linux
    } else {
        OsKind::Windows
    }
}

/// The browser family and version a user agent declares: Edge first
/// (its agent also names Chrome), then Chrome, then Firefox, then
/// Safari; versions too large for `u32` are ignored like absent ones.
pub open spec fn ua_choice_spec(ua: Seq<char>) -> (BrowserKind, Option<int>, bool) {
    let edge = version_after(ua, "Edg/"@);
    let chrome = version_after(ua, "Chrome/"@);
    if edge is Some && edge.unwrap() <= u32::MAX {
        (BrowserKind::Edge, edge, true)
    } else if chrome is Some && chrome.unwrap() <= u32::MAX {
        (BrowserKind::Chrome, chrome, true)
    } else if contains_seq(ua, "Firefox"@) {
        let ff = version_after(ua, "Firefox/"@);
        if ff is Some && ff.unwrap() <= u32::MAX {
            (BrowserKind::Firefox, ff, true)
        } else {
            (BrowserKind::Firefox, Some(999), true)
        }
    } else if contains_seq(ua, "Safari"@) && !contains_seq(ua, "Chrome"@) {
        let sf = version_after(ua, "Version/"@);
        if sf is Some && sf.unwrap() <= u32::MAX {
            (BrowserKind::Safari, sf, true)
        } else {
            (BrowserKind::Safari, Some(999), true)
        }
    } else {
        (BrowserKind::Chrome, Some(999), true)
    }
}

/// Picks the emulation profile and OS for a user agent: the closest
/// available version of the family the agent declares, the newest
/// Chrome when it declares none.
pub fn parse_user_agent(ua: Option<&str>, profiles: &Vec<EmulationProfile>) -> (r: (
    Option<EmulationProfile>,
    OsKind,
))
    ensures
        ({
            let text = match ua {
                Some(s) => s@,
                None => Seq::<char>::empty(),
            };
            let choice = ua_choice_spec(text);
            &&& r.1 == os_spec(text)
            &&& choice.1 is Some ==> r.0 == closest_spec(
                profiles@,
                choice.0,
                choice.1.unwrap() as u32,
            )
        }),
{
    let text: &str = match ua {
        Some(s) => s,
        None => "",
    };
    let chars = chars_vec(text);
    proof {
        reveal_strlit("");
        assert(chars@ == match ua {
            Some(s) => s@,
            None => Seq::<char>::empty(),
        });
    }
    let os = if contains_sub(&chars, &chars_vec("Macintosh")) || contains_sub(
        &chars,
        &chars_vec("Mac OS"),
    ) {
        OsKind::MacOs
    } else if contains_sub(&chars, &chars_vec("Linux")) && !contains_sub(
        &chars,
        &chars_vec("Android"),
    ) {
        OsKind::Linux
    } else {
        OsKind::Windows
    };
    let edge_pat = chars_vec("Edg/");
    proof {
        reveal_strlit("Edg/");
    }
    match find_version_after(&chars, &edge_pat) {
        Some(v) => {
            return (find_closest_emulation(profiles, BrowserKind::Edge, v), os);
        },
        None => {},
    }
    let chrome_pat = chars_vec("Chrome/");
    proof {
        reveal_strlit("Chrome/");
    }
    match find_version_after(&chars, &chrome_pat) {
        Some(v) => {
            return (find_closest_emulation(profiles, BrowserKind::Chrome, v), os);
        },
        None => {},
    }
    if contains_sub(&chars, &chars_vec("Firefox")) {
        let ff_pat = chars_vec("Firefox/");
        proof {
            reveal_strlit("Firefox/");
        }
        let v = match find_version_after(&chars, &ff_pat) {
            Some(v) => v,
            None => 999,
        };
        return (find_closest_emulation(profiles, BrowserKind::Firefox, v), os);
    }
    if contains_sub(&chars, &chars_vec("Safari")) && !contains_sub(&chars, &chars_vec("Chrome")) {
        let sf_pat = chars_vec("Version/");
        proof {
            reveal_strlit("Version/");
        }
        let v = match find_version_after(&chars, &sf_pat) {
            Some(v) => v,
            None => 999,
        };
        return (find_closest_emulation(profiles, BrowserKind::Safari, v), os);
    }
    (find_closest_emulation(profiles, BrowserKind::Chrome, 999), os)
}

// ---------------------------------------------------------------------------
// Version warning
// ---------------------------------------------------------------------------

/// A structured warning that the declared browser is newer than the
/// newest supported emulation profile.
#[derive(Debug, Clone)]
pub struct VersionWarning {
    pub browser: String,
    pub user_version: u32,
    pub max_supported: u32,
    pub message: String,
    pub update_command: String,
}

/// The warning's message text.
pub open spec fn warning_message_spec(browser: Seq<char>, user: u32, max: u32) -> Seq<char> {
    "Your "@ + browser + " version ("@ + dec_chars(user as nat)
        + ") is newer than the maximum supported version ("@ + dec_chars(max as nat)
        + "). TLS fingerprint mismatch may cause Cloudflare blocks."@
}

/// Builds the structured warning for a too-new browser version.
pub fn build_warning(browser: &str, user_version: u32, max_supported: u32) -> (r: VersionWarning)
    ensures
        r.browser@ == browser@,
        r.user_version == user_version,
        r.max_supported == max_supported,
        r.message@ == warning_message_spec(browser@, user_version, max_supported),
{
    let uv = u32_to_string(user_version);
    let mv = u32_to_string(max_supported);
    let a = concat2("Your ", browser);
    let b = concat2(a.as_str(), " version (");
    let c = concat2(b.as_str(), uv.as_str());
    let d = concat2(c.as_str(), ") is newer than the maximum supported version (");
    let e = concat2(d.as_str(), mv.as_str());
    let message = concat2(
        e.as_str(),
        "). TLS fingerprint mismatch may cause Cloudflare blocks.",
    );
    proof {
        assert(message@ =~= warning_message_spec(browser@, user_version, max_supported));
    }
    VersionWarning {
        browser: String::from_str(browser),
        user_version,
        max_supported,
        message,
        update_command: String::from_str("cargo update && cargo build --release"),
    }
}

/// Whether a warning is due, and for which family: the declared Edge
/// version past the Edge maximum wins over Chrome.
pub open spec fn version_warning_spec(
    ua: Seq<char>,
    profiles: Seq<EmulationProfile>,
) -> Option<(BrowserKind, int, int)> {
    let edge = version_after(ua, "Edg/"@);
    let chrome = version_after(ua, "Chrome/"@);
    let edge_due: Option<(BrowserKind, int, int)> = if edge is Some && edge.unwrap() <= u32::MAX {
        match range_spec(profiles, BrowserKind::Edge) {
            Some(r) => if edge.unwrap() > r.max {
                Some((BrowserKind::Edge, edge.unwrap(), r.max as int))
            } else {
                None
            },
            None => None,
        }
    } else {
        None
    };
    if edge_due is Some {
        edge_due
    } else {
        if chrome is Some && chrome.unwrap() <= u32::MAX {
            match range_spec(profiles, BrowserKind::Chrome) {
                Some(r) => if chrome.unwrap() > r.max {
                    Some((BrowserKind::Chrome, chrome.unwrap(), r.max as int))
                } else {
                    None
                },
                None => None,
            }
        } else {
            None
        }
    }
}

/// Emits a warning when the user agent declares a Chrome or Edge
/// version newer than the newest supported profile.
pub fn check_version_warning(ua: Option<&str>, profiles: &Vec<EmulationProfile>) -> (r: Option<
    VersionWarning,
>)
    ensures
        ({
            let text = match ua {
                Some(s) => s@,
                None => Seq::<char>::empty(),
            };
            match version_warning_spec(text, profiles@) {
                Some(w) => match r {
                    Some(vw) => {
                        &&& vw.user_version == w.1
                        &&& vw.max_supported == w.2
                        &&& (w.0 == BrowserKind::Edge ==> vw.browser@ == "Edge"@)
                        &&& (w.0 == BrowserKind::Chrome ==> vw.browser@ == "Chrome"@)
                        &&& vw.message@ == warning_message_spec(vw.browser@, vw.user_version, vw.max_supported)
                    },
                    None => false,
                },
                None => r is None,
            }
        }),
{
    let text: &str = match ua {
        Some(s) => s,
        None => "",
    };
    let chars = chars_vec(text);
    proof {
        reveal_strlit("");
        assert(chars@ == match ua {
            Some(s) => s@,
            None => Seq::<char>::empty(),
        });
    }
    let edge_pat = chars_vec("Edg/");
    proof {
        reveal_strlit("Edg/");
    }
    match find_version_after(&chars, &edge_pat) {
        Some(v) => {
            match range_of(profiles, BrowserKind::Edge) {
                Some(range) => {
                    if v > range.max {
                        return Some(build_warning("Edge", v, range.max));
                    }
                },
                None => {},
            }
        },
        None => {},
    }
    let chrome_pat = chars_vec("Chrome/");
    proof {
        reveal_strlit("Chrome/");
    }
    match find_version_after(&chars, &chrome_pat) {
        Some(v) => {
            match range_of(profiles, BrowserKind::Chrome) {
                Some(range) => {
                    if v > range.max {
                        return Some(build_warning("Chrome", v, range.max));
                    }
                },
                None => {},
            }
        },
        None => {},
    }
    None
}

// ---------------------------------------------------------------------------
// Response classification
// ---------------------------------------------------------------------------

/// The Cloudflare challenge markers of an error body (the `cf-` prefix
/// check included).
pub open spec fn cf_markers_status(body: Seq<char>) -> bool {
    contains_seq(body, "Just a moment"@) || contains_seq(body, "cf_chl_opt"@) || contains_seq(
        body,
        "cloudflare"@,
    ) || contains_seq(body, "cf-"@)
}

/// The Cloudflare challenge markers of a 2xx HTML body.
pub open spec fn cf_markers_html(body: Seq<char>) -> bool {
    contains_seq(body, "Just a moment"@) || contains_seq(body, "cf_chl_opt"@) || contains_seq(
        body,
        "cloudflare"@,
    )
}

/// The body a failing status is reported with: a blank body becomes
/// the actionable default.
pub open spec fn effective_body(body: Seq<char>) -> Seq<char> {
    if trim_seq(body).len() == 0 {
        "Authentication required. Provide cookies and/or bearer_token (Cloudflare may require cf_clearance)."@
    } else {
        body
    }
}

/// Classifies a failing HTTP status and body into the error taxonomy:
/// 401 is unauthorized; 403 is a Cloudflare block when the markers
/// appear, else unauthorized; 429 is a rate limit with a 60 s retry;
/// 503 and everything else are Cloudflare blocks when the markers
/// appear, else network errors.
pub fn status_to_error(status: u16, body: &str) -> (r: ArcaferryError)
    ensures
        ({
            let b = effective_body(body@);
            let cf = cf_markers_status(b);
            &&& status == 401 ==> match r {
                ArcaferryError::Unauthorized(m) => m@ == b,
                _ => false,
            }
            &&& status == 403 ==> if cf {
                r is CloudflareBlocked
            } else {
                match r {
                    ArcaferryError::Unauthorized(m) => m@ == b,
                    _ => false,
                }
            }
            &&& status == 429 ==> r == ArcaferryError::RateLimited(60u64)
            &&& (status != 401 && status != 403 && status != 429) ==> if cf {
                r is CloudflareBlocked
            } else {
                match r {
                    ArcaferryError::NetworkError(m) => m@ == "HTTP "@ + dec_chars(status as nat)
                        + ": "@ + b,
                    _ => false,
                }
            }
        }),
{
    let chars = chars_vec(body);
    let trimmed = trim_vec(&chars);
    let eff: String = if trimmed.len() == 0 {
        String::from_str(
            "Authentication required. Provide cookies and/or bearer_token (Cloudflare may require cf_clearance).",
        )
    } else {
        string_from_chars(&chars)
    };
    let ghost b = effective_body(body@);
    proof {
        assert(eff@ == b);
    }
    let effc = chars_vec(eff.as_str());
    let cf = contains_sub(&effc, &chars_vec("Just a moment")) || contains_sub(
        &effc,
        &chars_vec("cf_chl_opt"),
    ) || contains_sub(&effc, &chars_vec("cloudflare")) || contains_sub(&effc, &chars_vec("cf-"));
    if status == 401 {
        ArcaferryError::Unauthorized(eff)
    } else if status == 403 {
        if cf {
            ArcaferryError::CloudflareBlocked
        } else {
            ArcaferryError::Unauthorized(eff)
        }
    } else if status == 429 {
        ArcaferryError::RateLimited(60)
    } else {
        if cf {
            ArcaferryError::CloudflareBlocked
        } else {
            let code = u32_to_string(status as u32);
            let head = concat2("HTTP ", code.as_str());
            let mid = concat2(head.as_str(), ": ");
            let msg = concat2(mid.as_str(), eff.as_str());
            proof {
                assert(msg@ =~= "HTTP "@ + dec_chars(status as nat) + ": "@ + b);
            }
            ArcaferryError::NetworkError(msg)
        }
    }
}

/// Whether a 2xx body is an HTML page rather than JSON.
pub open spec fn body_is_html(body: Seq<char>) -> bool {
    starts_with_seq(trim_seq(body), "<!DOCTYPE"@) || starts_with_seq(trim_seq(body), "<html"@)
}

/// Classifies a 2xx body before decoding: HTML with Cloudflare markers
/// is a block, other HTML is bad JSON, anything else passes.
pub fn classify_success_body(body: &str) -> (r: Option<ArcaferryError>)
    ensures
        body_is_html(body@) && cf_markers_html(body@) ==> match r {
            Some(e) => e is CloudflareBlocked,
            None => false,
        },
        body_is_html(body@) && !cf_markers_html(body@) ==> match r {
            Some(e) => e is InvalidJson,
            None => false,
        },
        !body_is_html(body@) ==> r is None,
{
    let chars = chars_vec(body);
    let trimmed = trim_vec(&chars);
    let is_html = starts_with_sub(&trimmed, &chars_vec("<!DOCTYPE")) || starts_with_sub(
        &trimmed,
        &chars_vec("<html"),
    );
    if !is_html {
        return None;
    }
    let cf = contains_sub(&chars, &chars_vec("Just a moment")) || contains_sub(
        &chars,
        &chars_vec("cf_chl_opt"),
    ) || contains_sub(&chars, &chars_vec("cloudflare"));
    if cf {
        Some(ArcaferryError::CloudflareBlocked)
    } else {
        Some(ArcaferryError::InvalidJson(String::from_str("Received HTML instead of JSON")))
    }
}

// ---------------------------------------------------------------------------
// SSE collection
// ---------------------------------------------------------------------------

/// What one SSE `data:` chunk contributes: the `choices[0].delta.content`
/// text, else the top-level `content` text, of the chunk parsed as
/// JSON; what `parse_sse_chunk` returns on it.
pub uninterp spec fn sse_chunk_content_of(s: Seq<char>) -> Option<Seq<char>>;

/// Relies on `serde_json::from_str` and `Value::{get, as_str}`:
/// extracts the streamed text of one SSE JSON chunk, a function of the
/// chunk text alone.
#[verifier::external_body]
fn parse_sse_chunk(data: &str) -> (r: Option<String>)
    ensures
        match r {
            Some(c) => sse_chunk_content_of(data@) == Some(c@),
            None => sse_chunk_content_of(data@) is None,
        },
{
    let json: serde_json::Value = serde_json::from_str(data).ok()?;
    if let Some(c) = json
        .get("choices")
        .and_then(|c| c.get(0))
        .and_then(|c| c.get("delta"))
        .and_then(|d| d.get("content"))
        .and_then(|c| c.as_str())
    {
        return Some(c.to_string());
    }
    json.get("content").and_then(|c| c.as_str()).map(|s| s.to_string())
}

/// What one complete line adds to the collected text: lines without a
/// `data: ` prefix and the `[DONE]` marker add nothing.
pub open spec fn sse_line_text(line: Seq<char>) -> Seq<char> {
    if starts_with_seq(line, "data: "@) {
        let data = line.skip(6);
        if trim_seq(data) == "[DONE]"@ {
            Seq::empty()
        } else {
            match sse_chunk_content_of(data) {
                Some(c) => c,
                None => Seq::empty(),
            }
        }
    } else {
        Seq::empty()
    }
}

pub open spec fn sse_fold(lines: Seq<Seq<char>>, acc: Seq<char>) -> Seq<char>
    decreases lines.len(),
{
    if lines.len() == 0 {
        acc
    } else {
        sse_fold(lines.drop_first(), acc + sse_line_text(lines[0]))
    }
}

/// What collecting an SSE body yields: every complete line (text after
/// the last newline is dropped, as a partial line), in order.
pub open spec fn sse_collect_spec(body: Seq<char>) -> Seq<char> {
    let pieces = split_seq(body, '\n');
    sse_fold(pieces.take(pieces.len() - 1), Seq::empty())
}

/// Collects the streamed text of an SSE body: each complete
/// `data: ` line that is not `[DONE]` is parsed as JSON and its
/// content text appended.
pub fn sse_collect(body: &str) -> (r: String)
    ensures
        r@ == sse_collect_spec(body@),
{
    let chars = chars_vec(body);
    let pieces = split_char(&chars, '\n');
    let ghost linesv = pieces.deep_view().take(pieces.deep_view().len() - 1);
    let mut out = String::new();
    let n = pieces.len();
    proof {
        assert(pieces.deep_view().len() == split_seq(body@, '\n').len());
        assert(linesv.skip(0) =~= linesv);
    }
    let mut i: usize = 0;
    while i + 1 < n
        invariant
            n == pieces@.len(),
            n >= 1,
            i <= n - 1,
            pieces.deep_view() == split_seq(chars@, '\n'),
            chars@ == body@,
            linesv == pieces.deep_view().take(pieces.deep_view().len() - 1),
            sse_fold(linesv, Seq::empty()) == sse_fold(linesv.skip(i as int), out@),
        decreases n - i,
    {
        let ghost restv = linesv.skip(i as int);
        let ghost pre = out@;
        proof {
            assert(restv[0] == linesv[i as int]);
            assert(linesv[i as int] == pieces.deep_view()[i as int]);
            assert(pieces.deep_view()[i as int] == pieces@[i as int]@);
            assert(restv.drop_first() =~= linesv.skip(i + 1));
        }
        let line = &pieces[i];
        let prefix = chars_vec("data: ");
        proof {
            reveal_strlit("data: ");
        }
        if starts_with_sub(line, &prefix) {
            let data = crate::strutil::string_range_vec(line, 6, line.len());
            proof {
                assert(data@ =~= line@.skip(6));
            }
            let dtrim = trim_vec(&data);
            let done_pat = chars_vec("[DONE]");
            proof {
                reveal_strlit("[DONE]");
            }
            if crate::strutil::chars_eq(&dtrim, &done_pat) {
                // end-of-stream marker: contributes nothing
                proof {
                    assert(out@ =~= pre + sse_line_text(restv[0]));
                }
            } else {
                let dstr = string_from_chars(&data);
                match parse_sse_chunk(dstr.as_str()) {
                    Some(c) => {
                        out.append(c.as_str());
                        proof {
                            assert(out@ =~= pre + sse_line_text(restv[0]));
                        }
                    },
                    None => {
                        proof {
                            assert(out@ =~= pre + sse_line_text(restv[0]));
                        }
                    },
                }
            }
        } else {
            proof {
                assert(out@ =~= pre + sse_line_text(restv[0]));
            }
        }
        i = i + 1;
        proof {
            assert(sse_fold(linesv.skip(i as int), out@) == sse_fold(restv.drop_first(), pre
                + sse_line_text(restv[0])));
        }
    }
    proof {
        assert(linesv.skip(linesv.len() as int) =~= Seq::<Seq<char>>::empty());
        assert(i as int == linesv.len());
    }
    out
}

} // verus!
