//! Cookie jar: parses three wire formats into a name-keyed jar.
//!
//! The jar accepts a JSON array export, the tab-separated Netscape
//! `cookies.txt` format, and a plain `Cookie:` header string; in every
//! format a later cookie with the same name overwrites an earlier one.

use vstd::prelude::*;
use serde_json::Value;
use crate::error::ArcaferryError;
use crate::strutil::{
    ascii_lower, chars_eq, chars_vec, contains_seq, contains_sub, find_char, index_of_from,
    join_seq, lemma_find_char, lower_seq, split_char, split_seq, string_from_chars,
    string_of_range, string_range_vec, str_eq, trim_range, trim_seq, trim_vec,
};

verus! {

/// One cookie record.
#[derive(Debug, Clone)]
pub struct Cookie {
    pub name: String,
    pub value: String,
    pub domain: Option<String>,
    pub path: Option<String>,
    pub http_only: bool,
    pub secure: bool,
}

impl Cookie {
    /// An equal copy of the record.
    pub fn duplicate(&self) -> (r: Cookie)
        ensures
            r@ == self@,
    {
        Cookie {
            name: self.name.clone(),
            value: self.value.clone(),
            domain: match &self.domain {
                Some(d) => Some(d.clone()),
                None => None,
            },
            path: match &self.path {
                Some(p) => Some(p.clone()),
                None => None,
            },
            http_only: self.http_only,
            secure: self.secure,
        }
    }
}

/// The mathematical model of a cookie: name, value, domain, path,
/// http-only flag, secure flag.
pub type CookieView = (Seq<char>, Seq<char>, Option<Seq<char>>, Option<Seq<char>>, bool, bool);

impl View for Cookie {
    type V = CookieView;

    open spec fn view(&self) -> CookieView {
        (
            self.name@,
            self.value@,
            match self.domain {
                Some(d) => Some(d@),
                None => None,
            },
            match self.path {
                Some(p) => Some(p@),
                None => None,
            },
            self.http_only,
            self.secure,
        )
    }
}

/// Index of the first record with the given name.
pub open spec fn find_name_idx(jar: Seq<CookieView>, name: Seq<char>) -> Option<int>
    decreases jar.len(),
{
    if jar.len() == 0 {
        None
    } else if jar[0].0 == name {
        Some(0int)
    } else {
        match find_name_idx(jar.drop_first(), name) {
            Some(i) => Some(i + 1),
            None => None,
        }
    }
}

/// `find_name_idx` finds the first record with that name.
pub proof fn lemma_find_name_idx(jar: Seq<CookieView>, name: Seq<char>)
    ensures
        match find_name_idx(jar, name) {
            Some(i) => 0 <= i < jar.len() && jar[i].0 == name && forall|k: int|
                0 <= k < i ==> jar[k].0 != name,
            None => forall|k: int| 0 <= k < jar.len() ==> jar[k].0 != name,
        },
    decreases jar.len(),
{
    if jar.len() > 0 && jar[0].0 != name {
        lemma_find_name_idx(jar.drop_first(), name);
        assert(forall|k: int| 1 <= k < jar.len() ==> jar.drop_first()[k - 1] == jar[k]);
    }
}

/// Inserting replaces the first record of the same name, else appends.
pub open spec fn insert_cv(jar: Seq<CookieView>, c: CookieView) -> Seq<CookieView> {
    match find_name_idx(jar, c.0) {
        Some(i) => jar.update(i, c),
        None => jar.push(c),
    }
}

/// A jar keyed by cookie name.
#[derive(Debug, Clone)]
pub struct CookieJar {
    cookies: Vec<Cookie>,
}

impl View for CookieJar {
    type V = Seq<CookieView>;

    closed spec fn view(&self) -> Seq<CookieView> {
        self.cookies@.map_values(|c: Cookie| c@)
    }
}

/// No two records share a name.
pub open spec fn jar_wf(jar: Seq<CookieView>) -> bool {
    forall|i: int, j: int| 0 <= i < j < jar.len() ==> jar[i].0 != jar[j].0
}

proof fn lemma_insert_cv_wf(jar: Seq<CookieView>, c: CookieView)
    requires
        jar_wf(jar),
    ensures
        jar_wf(insert_cv(jar, c)),
{
    lemma_find_name_idx(jar, c.0);
    match find_name_idx(jar, c.0) {
        Some(i) => {
            let out = jar.update(i, c);
            assert forall|a: int, b: int| 0 <= a < b < out.len() implies out[a].0 != out[b].0 by {
                if a == i {
                    assert(jar[b].0 != jar[i].0);
                } else if b == i {
                    assert(jar[a].0 != jar[i].0 || a >= i);
                }
            }
        },
        None => {
            let out = jar.push(c);
            assert forall|a: int, b: int| 0 <= a < b < out.len() implies out[a].0 != out[b].0 by {
                if b == jar.len() {
                    assert(jar[a].0 != c.0);
                }
            }
        },
    }
}

// ---------------------------------------------------------------------------
// Format specifications
// ---------------------------------------------------------------------------

/// One `name=value` pair of a header string, added to the jar.
pub open spec fn header_pair_step(acc: Seq<CookieView>, pair: Seq<char>) -> Seq<CookieView> {
    let p = trim_seq(pair);
    match find_char(p, '=') {
        Some(i) => {
            let name = trim_seq(p.take(i));
            let value = trim_seq(p.skip(i + 1));
            if name.len() > 0 {
                insert_cv(acc, (name, value, None, None, false, false))
            } else {
                acc
            }
        },
        None => acc,
    }
}

pub open spec fn header_fold(pairs: Seq<Seq<char>>, acc: Seq<CookieView>) -> Seq<CookieView>
    decreases pairs.len(),
{
    if pairs.len() == 0 {
        acc
    } else {
        header_fold(pairs.drop_first(), header_pair_step(acc, pairs[0]))
    }
}

/// The jar a header string denotes: an optional case-insensitive
/// `Cookie:` prefix, then `name=value` pairs separated by `;`.
pub open spec fn header_string_spec(s: Seq<char>) -> Seq<CookieView> {
    let inner = if s.len() >= 7 && lower_seq(s.take(7)) == "cookie:"@ {
        trim_seq(s.skip(7))
    } else {
        s
    };
    header_fold(split_seq(inner, ';'), Seq::empty())
}

/// One line of a Netscape cookie file, added to the jar.  Seven
/// tab-separated fields: domain, flag, path, secure, expiry, name, value.
pub open spec fn netscape_line_step(acc: Seq<CookieView>, line: Seq<char>) -> Seq<CookieView> {
    let l = trim_seq(line);
    if l.len() == 0 || l[0] == '#' {
        acc
    } else {
        let parts = split_seq(l, '\t');
        if parts.len() >= 7 {
            let name = parts[5];
            if name.len() > 0 {
                insert_cv(
                    acc,
                    (
                        name,
                        parts[6],
                        Some(parts[0]),
                        Some(parts[2]),
                        false,
                        lower_seq(parts[3]) == "true"@,
                    ),
                )
            } else {
                acc
            }
        } else {
            acc
        }
    }
}

pub open spec fn netscape_fold(lines: Seq<Seq<char>>, acc: Seq<CookieView>) -> Seq<CookieView>
    decreases lines.len(),
{
    if lines.len() == 0 {
        acc
    } else {
        netscape_fold(lines.drop_first(), netscape_line_step(acc, lines[0]))
    }
}

/// The jar a Netscape-format text denotes.
pub open spec fn netscape_spec(s: Seq<char>) -> Seq<CookieView> {
    netscape_fold(split_seq(s, '\n'), Seq::empty())
}

/// Records decoded from a JSON array of cookie objects; what
/// `parse_cookie_json_records` returns on the text.
pub uninterp spec fn cookie_json_records(s: Seq<char>) -> Option<Seq<CookieView>>;

/// The jar a JSON export denotes: each decoded record with a non-empty
/// name, inserted in order.
pub open spec fn json_fold(records: Seq<CookieView>, acc: Seq<CookieView>) -> Seq<CookieView>
    decreases records.len(),
{
    if records.len() == 0 {
        acc
    } else {
        let c = records[0];
        let acc2 = if c.0.len() > 0 {
            insert_cv(acc, c)
        } else {
            acc
        };
        json_fold(records.drop_first(), acc2)
    }
}

/// Which format an input is parsed as, and the resulting jar.
/// `None` means the JSON branch was taken and the text was not a JSON array.
pub open spec fn parse_jar_spec(s: Seq<char>) -> Option<Seq<CookieView>> {
    let t = trim_seq(s);
    if t.len() == 0 {
        Some(Seq::empty())
    } else if t[0] == '[' {
        match cookie_json_records(t) {
            Some(records) => Some(json_fold(records, Seq::empty())),
            None => None,
        }
    } else if contains_seq(t, seq!['\t']) || t[0] == '#' {
        Some(netscape_spec(t))
    } else {
        Some(header_string_spec(t))
    }
}

// ---------------------------------------------------------------------------
// Trusted JSON decoding
// ---------------------------------------------------------------------------

/// Relies on `serde_json::from_str::<Vec<serde_json::Value>>` and
/// `serde_json::Value::{get, as_str, as_bool}`: decodes a JSON array
/// into one record per element, with empty-string / `false` defaults
/// for absent fields (an element that is not an object yields a record
/// with an empty name).  The records are a function of the text alone.
#[verifier::external_body]
fn parse_cookie_json_records(input: &str) -> (r: Result<Vec<Cookie>, String>)
    ensures
        match r {
            Ok(v) => cookie_json_records(input@) == Some(v@.map_values(|c: Cookie| c@)),
            Err(_) => cookie_json_records(input@) is None,
        },
{
    let vals: Vec<Value> = match serde_json::from_str(input) {
        Ok(v) => v,
        Err(e) => return Err(e.to_string()),
    };
    let s = |v: &Value, k: &str| v.get(k).and_then(|x| x.as_str()).map(String::from);
    let b = |v: &Value, k: &str| v.get(k).and_then(|x| x.as_bool()).unwrap_or(false);
    Ok(vals.iter().map(|v| Cookie {
        name: s(v, "name").unwrap_or_default(),
        value: s(v, "value").unwrap_or_default(),
        domain: s(v, "domain"),
        path: s(v, "path"),
        http_only: b(v, "httpOnly"),
        secure: b(v, "secure"),
    }).collect())
}

// ---------------------------------------------------------------------------
// The jar
// ---------------------------------------------------------------------------

impl CookieJar {
    /// An empty jar.
    pub fn new() -> (r: Self)
        ensures
            r@ == Seq::<CookieView>::empty(),
            jar_wf(r@),
    {
        let r = CookieJar { cookies: Vec::new() };
        proof {
            assert(r@ =~= Seq::<CookieView>::empty());
        }
        r
    }

    /// Inserts a cookie, replacing any record of the same name.
    pub fn insert(&mut self, cookie: Cookie)
        requires
            jar_wf(old(self)@),
        ensures
            final(self)@ == insert_cv(old(self)@, cookie@),
            jar_wf(final(self)@),
    {
        proof {
            lemma_find_name_idx(self@, cookie@.0);
            lemma_insert_cv_wf(self@, cookie@);
        }
        let n = self.cookies.len();
        let mut i: usize = 0;
        while i < n
            invariant
                n == self.cookies@.len(),
                i <= n,
                forall|k: int| 0 <= k < i ==> self@[k].0 != cookie@.0,
                jar_wf(self@),
                insert_cv(self@, cookie@) == insert_cv(old(self)@, cookie@),
                self@ == old(self)@,
            decreases n - i,
        {
            if str_eq(self.cookies[i].name.as_str(), cookie.name.as_str()) {
                proof {
                    assert(self@[i as int] == self.cookies@[i as int]@);
                    assert(self@[i as int].0 == cookie@.0);
                    lemma_find_name_idx(self@, cookie@.0);
                    assert(find_name_idx(self@, cookie@.0) == Some(i as int));
                }
                self.cookies[i] = cookie;
                proof {
                    assert(final(self)@ =~= insert_cv(old(self)@, cookie@));
                }
                return;
            }
            proof {
                assert(self@[i as int] == self.cookies@[i as int]@);
            }
            i = i + 1;
        }
        proof {
            lemma_find_name_idx(self@, cookie@.0);
            assert(find_name_idx(self@, cookie@.0) is None);
        }
        self.cookies.push(cookie);
        proof {
            assert(final(self)@ =~= insert_cv(old(self)@, cookie@));
        }
    }

    /// Looks up a cookie by name.
    pub fn get(&self, name: &str) -> (r: Option<&Cookie>)
        ensures
            match r {
                Some(c) => {
                    &&& find_name_idx(self@, name@) is Some
                    &&& c@ == self@[find_name_idx(self@, name@).unwrap()]
                    &&& c@.0 == name@
                },
                None => find_name_idx(self@, name@) is None,
            },
    {
        proof {
            lemma_find_name_idx(self@, name@);
        }
        let n = self.cookies.len();
        let mut i: usize = 0;
        while i < n
            invariant
                n == self.cookies@.len(),
                i <= n,
                forall|k: int| 0 <= k < i ==> self@[k].0 != name@,
            decreases n - i,
        {
            if str_eq(self.cookies[i].name.as_str(), name) {
                proof {
                    assert(self@[i as int] == self.cookies@[i as int]@);
                    assert(self@[i as int].0 == name@);
                    lemma_find_name_idx(self@, name@);
                    assert(find_name_idx(self@, name@) == Some(i as int));
                }
                return Some(&self.cookies[i]);
            }
            proof {
                assert(self@[i as int] == self.cookies@[i as int]@);
            }
            i = i + 1;
        }
        proof {
            lemma_find_name_idx(self@, name@);
        }
        None
    }

    /// The records, in insertion order.
    pub fn as_map(&self) -> (r: &Vec<Cookie>)
        ensures
            r@.map_values(|c: Cookie| c@) == self@,
    {
        &self.cookies
    }

    /// Whether the jar holds no cookie.
    pub fn is_empty(&self) -> (r: bool)
        ensures
            r == (self@.len() == 0),
    {
        self.cookies.len() == 0
    }

    /// The number of cookies held.
    pub fn len(&self) -> (r: usize)
        ensures
            r == self@.len(),
    {
        self.cookies.len()
    }

    /// `name=value` pairs, in insertion order.
    pub fn to_simple_map(&self) -> (r: Vec<(String, String)>)
        ensures
            r@.map_values(|p: (String, String)| (p.0@, p.1@)) =~= self@.map_values(
                |c: CookieView| (c.0, c.1),
            ),
    {
        let mut out: Vec<(String, String)> = Vec::new();
        let mut i: usize = 0;
        let n = self.cookies.len();
        while i < n
            invariant
                n == self.cookies@.len(),
                i <= n,
                out@.len() == i,
                forall|k: int|
                    0 <= k < i ==> out@[k].0@ == self@[k].0 && out@[k].1@ == self@[k].1,
            decreases n - i,
        {
            let c = &self.cookies[i];
            out.push((c.name.clone(), c.value.clone()));
            proof {
                assert(self@[i as int] == self.cookies@[i as int]@);
            }
            i = i + 1;
        }
        proof {
            let lhs = out@.map_values(|p: (String, String)| (p.0@, p.1@));
            let rhs = self@.map_values(|c: CookieView| (c.0, c.1));
            assert forall|k: int| 0 <= k < n implies #[trigger] lhs[k] == rhs[k] by {}
            assert(lhs =~= rhs);
        }
        out
    }

    /// The `Cookie` header value: `name=value` pairs joined by `"; "`.
    pub fn to_header_string(&self) -> (r: String)
        ensures
            r@ == join_seq(self@.map_values(|c: CookieView| c.0 + "="@ + c.1), "; "@),
    {
        let ghost parts = self@.map_values(|c: CookieView| c.0 + "="@ + c.1);
        let mut out = String::new();
        let n = self.cookies.len();
        let mut i: usize = 0;
        while i < n
            invariant
                n == self.cookies@.len(),
                i <= n,
                parts == self@.map_values(|c: CookieView| c.0 + "="@ + c.1),
                i == 0 ==> out@ =~= Seq::<char>::empty(),
                i > 0 ==> out@ =~= join_seq(parts.take(i as int), "; "@),
            decreases n - i,
        {
            if i > 0 {
                out.append("; ");
            }
            let c = &self.cookies[i];
            out.append(c.name.as_str());
            out.append("=");
            out.append(c.value.as_str());
            proof {
                reveal_strlit("=");
                assert(parts[i as int] == self@[i as int].0 + "="@ + self@[i as int].1);
            }
            i = i + 1;
            proof {
                crate::strutil::lemma_join_step(parts, "; "@, i as int);
                if i == 1 {
                    assert(join_seq(parts.take(1), "; "@) == parts[0]);
                    assert(out@ =~= join_seq(parts.take(i as int), "; "@));
                } else {
                    assert(out@ =~= join_seq(parts.take(i as int), "; "@));
                }
            }
        }
        proof {
            if n == 0 {
                assert(join_seq(parts, "; "@) =~= Seq::<char>::empty());
            } else {
                assert(parts.take(n as int) =~= parts);
            }
        }
        out
    }

    /// Parses any of the three cookie formats, detected by inspection:
    /// a JSON array export, a Netscape `cookies.txt`, or a header
    /// string.  An empty input yields an empty jar; only a malformed
    /// JSON array is an error.
    pub fn parse(input: &str) -> (r: Result<Self, ArcaferryError>)
        ensures
            match r {
                Ok(jar) => parse_jar_spec(input@) == Some(jar@) && jar_wf(jar@),
                Err(e) => parse_jar_spec(input@) is None && e is InvalidJson,
            },
    {
        let chars = chars_vec(input);
        let trimmed = trim_vec(&chars);
        if trimmed.len() == 0 {
            return Ok(Self::new());
        }
        if trimmed[0] == '[' {
            let tstr = string_from_chars(&trimmed);
            match parse_cookie_json_records(tstr.as_str()) {
                Ok(records) => {
                    let mut jar = Self::new();
                    let ghost rv = records@.map_values(|c: Cookie| c@);
                    proof {
                        assert(rv.skip(0) =~= rv);
                    }
                    let n = records.len();
                    let mut i: usize = 0;
                    while i < n
                        invariant
                            n == records@.len(),
                            i <= n,
                            rv == records@.map_values(|c: Cookie| c@),
                            jar_wf(jar@),
                            json_fold(rv, Seq::empty()) == json_fold(rv.skip(i as int), jar@),
                        decreases n - i,
                    {
                        let c = &records[i];
                        let ghost pre = jar@;
                        let ghost restv = rv.skip(i as int);
                        proof {
                            assert(restv[0] == rv[i as int]);
                            assert(restv.drop_first() =~= rv.skip(i + 1));
                        }
                        if c.name.as_str().unicode_len() > 0 {
                            jar.insert(c.duplicate());
                            proof {
                                assert(jar@ == insert_cv(pre, rv[i as int]));
                            }
                        }
                        i = i + 1;
                        proof {
                            assert(json_fold(rv.skip(i as int), jar@) == json_fold(restv, pre));
                        }
                    }
                    proof {
                        assert(rv.skip(n as int) =~= Seq::<CookieView>::empty());
                    }
                    Ok(jar)
                },
                Err(msg) => Err(ArcaferryError::InvalidJson(msg)),
            }
        } else if {
            let mut tab: Vec<char> = Vec::new();
            tab.push('\t');
            proof {
                assert(tab@ =~= seq!['\t']);
            }
            contains_sub(&trimmed, &tab)
        } || trimmed[0] == '#' {
            Ok(Self::parse_netscape(&trimmed))
        } else {
            Ok(Self::parse_header_string(&trimmed))
        }
    }

    /// Parses the Netscape `cookies.txt` format: one cookie per
    /// non-comment, non-empty line of seven tab-separated fields.
    fn parse_netscape(text: &Vec<char>) -> (r: Self)
        ensures
            r@ == netscape_spec(text@),
            jar_wf(r@),
    {
        let lines = split_char(text, '\n');
        let mut jar = Self::new();
        proof {
            assert(lines.deep_view().skip(0) =~= lines.deep_view());
        }
        let n = lines.len();
        let mut i: usize = 0;
        while i < n
            invariant
                n == lines@.len(),
                i <= n,
                lines.deep_view() == split_seq(text@, '\n'),
                jar_wf(jar@),
                netscape_spec(text@) == netscape_fold(lines.deep_view().skip(i as int), jar@),
            decreases n - i,
        {
            let ghost restv = lines.deep_view().skip(i as int);
            let ghost pre = jar@;
            proof {
                assert(restv[0] == lines.deep_view()[i as int]);
                assert(lines.deep_view()[i as int] == lines@[i as int]@);
                assert(restv.drop_first() =~= lines.deep_view().skip(i + 1));
            }
            let line = trim_vec(&lines[i]);
            if line.len() == 0 || line[0] == '#' {
                // comment or blank line
            } else {
                let parts = split_char(&line, '\t');
                proof {
                    assert(parts.deep_view() == split_seq(trim_seq(lines@[i as int]@), '\t'));
                }
                if parts.len() >= 7 {
                    let name = &parts[5];
                    proof {
                        assert(parts@[5]@ == parts.deep_view()[5]);
                        assert(parts@[6]@ == parts.deep_view()[6]);
                        assert(parts@[0]@ == parts.deep_view()[0]);
                        assert(parts@[2]@ == parts.deep_view()[2]);
                        assert(parts@[3]@ == parts.deep_view()[3]);
                    }
                    if name.len() > 0 {
                        let secure_lower = ascii_lower(&parts[3]);
                        let t = chars_vec("true");
                        proof {
                            reveal_strlit("true");
                        }
                        let secure = chars_eq(&secure_lower, &t);
                        let cookie = Cookie {
                            name: string_from_chars(&parts[5]),
                            value: string_from_chars(&parts[6]),
                            domain: Some(string_from_chars(&parts[0])),
                            path: Some(string_from_chars(&parts[2])),
                            http_only: false,
                            secure,
                        };
                        jar.insert(cookie);
                        proof {
                            assert(jar@ == netscape_line_step(pre, lines@[i as int]@));
                        }
                    }
                }
            }
            i = i + 1;
            proof {
                assert(jar@ == netscape_line_step(pre, restv[0]));
                assert(netscape_fold(lines.deep_view().skip(i as int), jar@) == netscape_fold(
                    restv,
                    pre,
                ));
            }
        }
        proof {
            assert(lines.deep_view().skip(n as int) =~= Seq::<Seq<char>>::empty());
        }
        jar
    }

    /// Parses a header string: optional `Cookie:` prefix, then
    /// `name=value` pairs separated by `;`.
    fn parse_header_string(text: &Vec<char>) -> (r: Self)
        ensures
            r@ == header_string_spec(text@),
            jar_wf(r@),
    {
        let prefix = chars_vec("cookie:");
        proof {
            reveal_strlit("cookie:");
        }
        let lowered = ascii_lower(text);
        let mut has_prefix = false;
        if text.len() >= 7 {
            let head = string_range_vec(&lowered, 0, 7);
            proof {
                assert(head@ =~= lower_seq(text@).subrange(0, 7));
                assert(lower_seq(text@.take(7)) =~= lower_seq(text@).subrange(0, 7));
            }
            has_prefix = chars_eq(&head, &prefix);
        }
        let inner: Vec<char> = if has_prefix {
            let rest = string_range_vec(text, 7, text.len());
            proof {
                assert(rest@ =~= text@.skip(7));
            }
            trim_vec(&rest)
        } else {
            let copy = string_range_vec(text, 0, text.len());
            proof {
                assert(copy@ =~= text@);
            }
            copy
        };
        let pairs = split_char(&inner, ';');
        let mut jar = Self::new();
        proof {
            assert(pairs.deep_view().skip(0) =~= pairs.deep_view());
        }
        let n = pairs.len();
        let mut i: usize = 0;
        while i < n
            invariant
                n == pairs@.len(),
                i <= n,
                pairs.deep_view() == split_seq(inner@, ';'),
                jar_wf(jar@),
                header_fold(split_seq(inner@, ';'), Seq::empty()) == header_fold(
                    pairs.deep_view().skip(i as int),
                    jar@,
                ),
            decreases n - i,
        {
            let ghost restv = pairs.deep_view().skip(i as int);
            let ghost pre = jar@;
            proof {
                assert(restv[0] == pairs.deep_view()[i as int]);
                assert(pairs.deep_view()[i as int] == pairs@[i as int]@);
                assert(restv.drop_first() =~= pairs.deep_view().skip(i + 1));
            }
            let p = trim_vec(&pairs[i]);
            match index_of_from(&p, '=', 0) {
                Some(eq_idx) => {
                    proof {
                        lemma_find_char_first_pub(p@, '=', eq_idx as int);
                    }
                    let pn = p.len();
                    let (nf, nt) = trim_range(&p, 0, eq_idx);
                    let (vf, vt) = trim_range(&p, eq_idx + 1, pn);
                    proof {
                        assert(p@.subrange(0, eq_idx as int) =~= p@.take(eq_idx as int));
                        assert(p@.subrange(eq_idx + 1, p@.len() as int) =~= p@.skip(eq_idx + 1));
                    }
                    if nt > nf {
                        let cookie = Cookie {
                            name: string_of_range(&p, nf, nt),
                            value: string_of_range(&p, vf, vt),
                            domain: None,
                            path: None,
                            http_only: false,
                            secure: false,
                        };
                        jar.insert(cookie);
                        proof {
                            assert(jar@ == header_pair_step(pre, restv[0]));
                        }
                    } else {
                        proof {
                            assert(trim_seq(p@.take(eq_idx as int)).len() == 0);
                            assert(jar@ == header_pair_step(pre, restv[0]));
                        }
                    }
                },
                None => {
                    proof {
                        lemma_find_char_none_pub(p@, '=');
                        assert(jar@ == header_pair_step(pre, restv[0]));
                    }
                },
            }
            i = i + 1;
            proof {
                assert(header_fold(pairs.deep_view().skip(i as int), jar@) == header_fold(
                    restv,
                    pre,
                ));
            }
        }
        proof {
            assert(pairs.deep_view().skip(n as int) =~= Seq::<Seq<char>>::empty());
        }
        jar
    }
}

/// The same input text always denotes the same jar: parsing is a
/// function of the text alone.
pub proof fn lemma_cookie_parse_deterministic(s1: Seq<char>, s2: Seq<char>)
    requires
        s1 == s2,
    ensures
        parse_jar_spec(s1) == parse_jar_spec(s2),
{
}

/// Public restatement of the `find_char` characterization for callers.
pub proof fn lemma_find_char_first_pub(s: Seq<char>, c: char, i: int)
    requires
        0 <= i < s.len(),
        s[i] == c,
        forall|k: int| 0 <= k < i ==> s[k] != c,
    ensures
        find_char(s, c) == Some(i),
{
    lemma_find_char(s, c);
    match find_char(s, c) {
        Some(j) => {
            if j < i {
                assert(s[j] != c);
            }
            if j > i {
                assert(s[i] != c);
            }
        },
        None => {
            assert(s[i] != c);
        },
    }
}

/// Public restatement: no occurrence means `find_char` is `None`.
pub proof fn lemma_find_char_none_pub(s: Seq<char>, c: char)
    requires
        forall|k: int| 0 <= k < s.len() ==> s[k] != c,
    ensures
        find_char(s, c) is None,
{
    lemma_find_char(s, c);
    match find_char(s, c) {
        Some(j) => {
            assert(s[j] != c);
        },
        None => {},
    }
}

} // verus!
