//! The hidden-settings extractor: argument building and result
//! interpretation.
//!
//! The extractor is an external process driving a real browser; the
//! library decides which arguments it gets and what its exit status
//! and output mean.  Spawning, timeouts and log streaming happen
//! outside.

use vstd::prelude::*;
use serde_json::Value;
use crate::error::ArcaferryError;
use crate::quack::QuackAttribute;
use crate::strutil::{
    chars_vec, concat2, dec_chars, digit_run_len, digits_value, is_digit, trim_seq, trim_vec,
    string_from_chars, u64_to_string,
};

verus! {

/// Whether the browser-driving extractor can run here.
#[derive(Debug, Clone)]
pub enum BrowserCapability {
    /// The interpreter, its modules and the browser are present.
    Available,
    /// Something is not installed; the reason says what.
    NotInstalled(String),
    /// Probing failed outright.
    Error(String),
}

/// What an extraction run produced: the attributes read from stdout
/// and the trimmed diagnostic text of stderr.
#[derive(Debug)]
pub struct SidecarHiddenSettings {
    pub attrs: Vec<QuackAttribute>,
    pub stderr: String,
}

/// The optional inputs an invocation forwards to the extractor.
#[derive(Debug)]
pub struct SidecarInvokeParams {
    pub cookies: Option<String>,
    pub bearer_token: Option<String>,
    pub gemini_api_key: Option<String>,
    pub user_agent: Option<String>,
    pub dream_url: Option<String>,
}

/// Whether an environment value counts as set: non-blank and none of
/// `0`, `false`, `False`.
pub open spec fn truthy_spec(v: Option<String>) -> bool {
    match v {
        Some(s) => {
            let t = trim_seq(s@);
            t.len() > 0 && t != "0"@ && t != "false"@ && t != "False"@
        },
        None => false,
    }
}

/// Evaluates an environment flag's truthiness.
pub fn env_flag_truthy(v: Option<&String>) -> (r: bool)
    ensures
        r == truthy_spec(match v {
            Some(s) => Some(*s),
            None => None,
        }),
{
    match v {
        Some(s) => {
            let t = trim_vec(&chars_vec(s.as_str()));
            proof {
                reveal_strlit("0");
                reveal_strlit("false");
                reveal_strlit("False");
            }
            t.len() > 0 && !crate::strutil::chars_eq(&t, &chars_vec("0"))
                && !crate::strutil::chars_eq(&t, &chars_vec("false")) && !crate::strutil::chars_eq(
                &t,
                &chars_vec("False"),
            )
        },
        None => false,
    }
}

/// What `serde_json::to_string` renders a string list as; what
/// `json_encode_labels` returns on it.
pub uninterp spec fn json_string_list_of(labels: Seq<Seq<char>>) -> Seq<char>;

/// Relies on `serde_json::to_string` over `Vec<String>` (which cannot
/// fail): the JSON array text of the labels, a function of the labels
/// alone.
#[verifier::external_body]
fn json_encode_labels(labels: &Vec<String>) -> (r: String)
    ensures
        r@ == json_string_list_of(labels@.map_values(|s: String| s@)),
{
    serde_json::to_string(labels).unwrap_or_default()
}

/// The extractor's argument list: the share URL and the hidden labels
/// as JSON, the headed/trace flags, then each optional input that is
/// not blank.
pub open spec fn sidecar_args_spec(
    share_url: Seq<char>,
    labels: Seq<Seq<char>>,
    headed: bool,
    trace: bool,
    cookies: Option<String>,
    bearer_token: Option<String>,
    gemini_api_key: Option<String>,
    user_agent: Option<String>,
    dream_url: Option<String>,
) -> Seq<Seq<char>> {
    seq!["--url"@, share_url, "--labels"@, json_string_list_of(labels)] + (if headed {
        seq!["--headed"@]
    } else {
        Seq::empty()
    }) + (if trace {
        seq!["--trace"@]
    } else {
        Seq::empty()
    }) + opt_arg("--cookies"@, cookies) + opt_arg("--token"@, bearer_token) + opt_arg(
        "--gemini-api-key"@,
        gemini_api_key,
    ) + opt_arg("--user-agent"@, user_agent) + opt_arg("--dream-url"@, dream_url)
}

/// An optional `flag value` pair, present when the value is not blank.
pub open spec fn opt_arg(flag: Seq<char>, v: Option<String>) -> Seq<Seq<char>> {
    match v {
        Some(s) => if trim_seq(s@).len() > 0 {
            seq![flag, s@]
        } else {
            Seq::empty()
        },
        None => Seq::empty(),
    }
}

fn push_opt_arg(out: &mut Vec<String>, flag: &str, v: &Option<String>)
    ensures
        final(out)@.map_values(|s: String| s@) == old(out)@.map_values(|s: String| s@) + opt_arg(
            flag@,
            *v,
        ),
{
    let ghost pre = out@.map_values(|s: String| s@);
    match v {
        Some(s) => {
            let t = trim_vec(&chars_vec(s.as_str()));
            if t.len() > 0 {
                out.push(String::from_str(flag));
                out.push(s.clone());
                proof {
                    assert(out@.map_values(|x: String| x@) =~= pre + seq![flag@, s@]);
                }
            } else {
                proof {
                    assert(out@.map_values(|x: String| x@) =~= pre + opt_arg(flag@, *v));
                }
            }
        },
        None => {
            proof {
                assert(out@.map_values(|x: String| x@) =~= pre + opt_arg(flag@, *v));
            }
        },
    }
}

/// Builds the extractor's argument list (everything after the script
/// path).
pub fn sidecar_command_args(
    share_url: &str,
    hidden_labels: &Vec<String>,
    headed: bool,
    trace: bool,
    params: &SidecarInvokeParams,
) -> (r: Vec<String>)
    ensures
        r@.map_values(|s: String| s@) == sidecar_args_spec(
            share_url@,
            hidden_labels@.map_values(|s: String| s@),
            headed,
            trace,
            params.cookies,
            params.bearer_token,
            params.gemini_api_key,
            params.user_agent,
            params.dream_url,
        ),
{
    let labels_json = json_encode_labels(hidden_labels);
    let mut out: Vec<String> = Vec::new();
    out.push(String::from_str("--url"));
    out.push(String::from_str(share_url));
    out.push(String::from_str("--labels"));
    out.push(labels_json);
    proof {
        assert(out@.map_values(|s: String| s@) =~= seq![
            "--url"@,
            share_url@,
            "--labels"@,
            json_string_list_of(hidden_labels@.map_values(|s: String| s@)),
        ]);
    }
    let ghost base = out@.map_values(|s: String| s@);
    if headed {
        out.push(String::from_str("--headed"));
        proof {
            assert(out@.map_values(|s: String| s@) =~= base + seq!["--headed"@]);
        }
    } else {
        proof {
            assert(out@.map_values(|s: String| s@) =~= base + Seq::<Seq<char>>::empty());
        }
    }
    let ghost base2 = out@.map_values(|s: String| s@);
    if trace {
        out.push(String::from_str("--trace"));
        proof {
            assert(out@.map_values(|s: String| s@) =~= base2 + seq!["--trace"@]);
        }
    } else {
        proof {
            assert(out@.map_values(|s: String| s@) =~= base2 + Seq::<Seq<char>>::empty());
        }
    }
    push_opt_arg(&mut out, "--cookies", &params.cookies);
    push_opt_arg(&mut out, "--token", &params.bearer_token);
    push_opt_arg(&mut out, "--gemini-api-key", &params.gemini_api_key);
    push_opt_arg(&mut out, "--user-agent", &params.user_agent);
    push_opt_arg(&mut out, "--dream-url", &params.dream_url);
    proof {
        assert(out@.map_values(|s: String| s@) =~= sidecar_args_spec(
            share_url@,
            hidden_labels@.map_values(|s: String| s@),
            headed,
            trace,
            params.cookies,
            params.bearer_token,
            params.gemini_api_key,
            params.user_agent,
            params.dream_url,
        ));
    }
    out
}

/// The plain fields of an attribute, for stating what decoding
/// returned.
pub open spec fn attr_tuple(a: QuackAttribute) -> (
    Option<Seq<char>>,
    Option<Seq<char>>,
    Option<Seq<char>>,
    Option<bool>,
) {
    (
        match a.label {
            Some(l) => Some(l@),
            None => None,
        },
        match a.name {
            Some(n) => Some(n@),
            None => None,
        },
        match a.value {
            Some(v) => Some(v@),
            None => None,
        },
        a.is_visible,
    )
}

/// What decoding the extractor's stdout yields: a list of attributes,
/// or nothing when the text is not a JSON attribute array; what
/// `parse_sidecar_attrs` returns on it.
pub uninterp spec fn sidecar_attrs_of(s: Seq<char>) -> Option<
    Seq<(Option<Seq<char>>, Option<Seq<char>>, Option<Seq<char>>, Option<bool>)>,
>;

/// Relies on `serde_json::from_str` and `Value::{get, as_str,
/// as_bool}`: decodes a JSON array of attribute objects, a function of
/// the text alone; the error text is the decoder's own message.
#[verifier::external_body]
fn parse_sidecar_attrs(stdout: &str) -> (r: Result<Vec<QuackAttribute>, String>)
    ensures
        match r {
            Ok(v) => sidecar_attrs_of(stdout@) == Some(
                v@.map_values(|a: QuackAttribute| attr_tuple(a)),
            ),
            Err(_) => sidecar_attrs_of(stdout@) is None,
        },
{
    let vals: Vec<Value> = match serde_json::from_str(stdout) {
        Ok(v) => v,
        Err(e) => return Err(e.to_string()),
    };
    let s = |v: &Value, k: &str| v.get(k).and_then(|x| x.as_str()).map(String::from);
    Ok(vals.iter().map(|v| QuackAttribute {
        label: s(v, "label"),
        name: s(v, "name"),
        value: s(v, "value"),
        is_visible: v.get("isVisible").and_then(|x| x.as_bool()),
    }).collect())
}

/// The timeout failure message.
pub fn sidecar_timeout_message(timeout_secs: u64) -> (r: String)
    ensures
        r@ == "Sidecar timeout ("@ + dec_chars(timeout_secs as nat) + "s)"@,
{
    let d = u64_to_string(timeout_secs);
    let head = concat2("Sidecar timeout (", d.as_str());
    let r = concat2(head.as_str(), "s)");
    proof {
        assert(r@ =~= "Sidecar timeout ("@ + dec_chars(timeout_secs as nat) + "s)"@);
    }
    r
}

/// Interprets a finished extractor run: a failing exit becomes a
/// browser error carrying the status text and trimmed stderr; on
/// success the stdout must decode as an attribute array, whose
/// attributes are handed back with the trimmed stderr.
pub fn interpret_sidecar_result(exit_ok: bool, status_text: &str, stdout: &str, stderr: &str) -> (r:
    Result<SidecarHiddenSettings, ArcaferryError>)
    ensures
        !exit_ok ==> match r {
            Err(e) => e is BrowserError,
            Ok(_) => false,
        },
        exit_ok && sidecar_attrs_of(stdout@) is Some ==> match r {
            Ok(s) => {
                &&& s.attrs@.map_values(|a: QuackAttribute| attr_tuple(a)) == sidecar_attrs_of(
                    stdout@,
                ).unwrap()
                &&& s.stderr@ == trim_seq(stderr@)
            },
            Err(_) => false,
        },
        exit_ok && sidecar_attrs_of(stdout@) is None ==> match r {
            Err(e) => e is BrowserError,
            Ok(_) => false,
        },
{
    let stderr_trim = {
        let t = trim_vec(&chars_vec(stderr));
        string_from_chars(&t)
    };
    if !exit_ok {
        let head = concat2("Sidecar exited with ", status_text);
        let mid = concat2(head.as_str(), ": ");
        return Err(ArcaferryError::BrowserError(concat2(mid.as_str(), stderr_trim.as_str())));
    }
    match parse_sidecar_attrs(stdout) {
        Ok(attrs) => Ok(SidecarHiddenSettings { attrs, stderr: stderr_trim }),
        Err(e) => {
            let head = concat2("Failed to parse sidecar JSON output: ", e.as_str());
            let mid = concat2(head.as_str(), " (stdout: ");
            let t = trim_vec(&chars_vec(stdout));
            let body = concat2(mid.as_str(), string_from_chars(&t).as_str());
            Err(ArcaferryError::BrowserError(concat2(body.as_str(), ")")))
        },
    }
}

proof fn lemma_digits_nonneg(s: Seq<char>)
    requires
        forall|k: int| 0 <= k < s.len() ==> is_digit(#[trigger] s[k]),
    ensures
        digits_value(s) >= 0,
    decreases s.len(),
{
    if s.len() > 0 {
        let d = s.drop_last();
        assert forall|k: int| 0 <= k < d.len() implies is_digit(#[trigger] d[k]) by {
            assert(d[k] == s[k]);
        }
        lemma_digits_nonneg(d);
        assert(is_digit(s.last()));
        assert(crate::strutil::digit_val(s.last()) >= 0);
        assert(digits_value(d) * 10 >= 0) by (nonlinear_arith)
            requires
                digits_value(d) >= 0,
        ;
    }
}

proof fn lemma_digits_prefix(s: Seq<char>, j: int)
    requires
        forall|k: int| 0 <= k < s.len() ==> is_digit(#[trigger] s[k]),
        0 <= j <= s.len(),
    ensures
        digits_value(s.take(j)) <= digits_value(s),
    decreases s.len(),
{
    if j == s.len() {
        assert(s.take(j) =~= s);
    } else {
        let d = s.drop_last();
        assert forall|k: int| 0 <= k < d.len() implies is_digit(#[trigger] d[k]) by {
            assert(d[k] == s[k]);
        }
        assert(s.take(j) =~= d.take(j));
        lemma_digits_prefix(d, j);
        lemma_digits_nonneg(d);
        assert(is_digit(s.last()));
        assert(crate::strutil::digit_val(s.last()) >= 0);
        assert(digits_value(s) == digits_value(d) * 10 + crate::strutil::digit_val(s.last()));
        assert(digits_value(d) * 10 >= digits_value(d)) by (nonlinear_arith)
            requires
                digits_value(d) >= 0,
        ;
        assert(digits_value(d.take(j)) <= digits_value(d));
        assert(digits_value(s.take(j)) <= digits_value(s));
    }
}

/// Parses a decimal environment value; anything else falls back to the
/// default.
pub fn parse_timeout_secs(v: Option<&String>, default: u64) -> (r: u64)
    ensures
        match v {
            Some(s) => {
                let t = trim_seq(s@);
                (t.len() > 0 && digit_run_len(t) == t.len() && digits_value(t) <= u64::MAX) ==> r
                    == digits_value(t)
            },
            None => r == default,
        },
{
    let s = match v {
        Some(s) => s,
        None => {
            return default;
        },
    };
    let t = trim_vec(&chars_vec(s.as_str()));
    let n = t.len();
    if n == 0 {
        return default;
    }
    let mut val: u64 = 0;
    let mut i: usize = 0;
    let mut ok = true;
    while ok && i < n
        invariant
            n == t@.len(),
            n > 0,
            i <= n,
            ok ==> forall|k: int| 0 <= k < i ==> is_digit(#[trigger] t@[k]),
            ok ==> val == digits_value(t@.take(i as int)),
            !ok ==> digit_run_len(t@) < t@.len() || digits_value(t@) > u64::MAX,
        decreases n - i + (if ok { 1int } else { 0int }),
    {
        let c = t[i];
        if !('0' <= c && c <= '9') {
            proof {
                crate::strutil::lemma_digit_run(t@);
                if digit_run_len(t@) > i as int {
                    assert(is_digit(t@[i as int]));
                }
            }
            ok = false;
        } else {
            let d: u64 = (c as u32 as u64) - 48;
            let ghost prev = t@.take(i as int);
            let ghost cur = t@.take(i + 1);
            proof {
                assert(cur.drop_last() =~= prev);
                assert(cur.last() == t@[i as int]);
            }
            if val > (u64::MAX - d) / 10 {
                proof {
                    crate::strutil::lemma_digit_run(t@);
                    if digit_run_len(t@) == t@.len() {
                        assert(forall|k: int| 0 <= k < t@.len() ==> is_digit(#[trigger] t@[k]));
                        assert(digits_value(cur) == digits_value(prev) * 10
                            + crate::strutil::digit_val(t@[i as int]));
                        assert(digits_value(prev) * 10 + d > u64::MAX) by (nonlinear_arith)
                            requires
                                digits_value(prev) == val as int,
                                0 <= d <= 9,
                                val > (u64::MAX - d) / 10,
                                val <= u64::MAX,
                        ;
                        assert(digits_value(cur) > u64::MAX);
                        lemma_digits_prefix(t@, i + 1);
                        assert(t@.take(i + 1) =~= cur);
                        assert(digits_value(t@) > u64::MAX);
                    }
                }
                ok = false;
            } else {
                val = val * 10 + d;
                i = i + 1;
            }
        }
    }
    if ok {
        proof {
            assert(t@.take(n as int) =~= t@);
            crate::strutil::lemma_digit_run(t@);
            assert(digit_run_len(t@) == n as int);
        }
        val
    } else {
        default
    }
}

} // verus!
