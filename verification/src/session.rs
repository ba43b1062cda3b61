//! The session store: cached credentials per platform, with expiry.
//!
//! Times are Unix seconds handed in by the caller; the store itself
//! never reads a clock.  The caller wraps the manager in whatever lock
//! its runtime needs.

use vstd::prelude::*;
use crate::cookies::CookieJar;
use crate::error::ArcaferryError;
use crate::strutil::str_eq;

verus! {

/// Cached credentials for one platform.
#[derive(Debug)]
pub struct Session {
    pub platform: String,
    pub cookies: Option<String>,
    pub bearer_token: Option<String>,
    pub created_at: i64,
    pub expires_at: Option<i64>,
}

/// Whether a session is past its expiry at the given time.
pub open spec fn expired_spec(s: Session, now: i64) -> bool {
    match s.expires_at {
        Some(e) => now > e,
        None => false,
    }
}

impl Session {
    /// A fresh session for a platform, created now.
    pub fn new(platform: &str, now: i64) -> (r: Self)
        ensures
            r.platform@ == platform@,
            r.cookies is None,
            r.bearer_token is None,
            r.created_at == now,
            r.expires_at is None,
    {
        Session {
            platform: String::from_str(platform),
            cookies: None,
            bearer_token: None,
            created_at: now,
            expires_at: None,
        }
    }

    /// The session with its cookies set to the jar's header string.
    pub fn with_cookies(self, jar: &CookieJar) -> (r: Self)
        ensures
            match r.cookies {
                Some(c) => c@ == crate::strutil::join_seq(
                    jar@.map_values(|c: crate::cookies::CookieView| c.0 + "="@ + c.1),
                    "; "@,
                ),
                None => false,
            },
            r.platform == self.platform,
            r.bearer_token == self.bearer_token,
            r.created_at == self.created_at,
            r.expires_at == self.expires_at,
    {
        Session { cookies: Some(jar.to_header_string()), ..self }
    }

    /// The session with a bearer token set.
    pub fn with_bearer_token(self, token: &str) -> (r: Self)
        ensures
            match r.bearer_token {
                Some(t) => t@ == token@,
                None => false,
            },
            r.platform == self.platform,
            r.cookies == self.cookies,
            r.created_at == self.created_at,
            r.expires_at == self.expires_at,
    {
        Session { bearer_token: Some(String::from_str(token)), ..self }
    }

    /// The session expiring `duration_secs` from now.
    pub fn with_expiry(self, now: i64, duration_secs: i64) -> (r: Self)
        requires
            now + duration_secs <= i64::MAX,
            now + duration_secs >= i64::MIN,
        ensures
            r.expires_at == Some((now + duration_secs) as i64),
            r.platform == self.platform,
            r.cookies == self.cookies,
            r.bearer_token == self.bearer_token,
            r.created_at == self.created_at,
    {
        Session { expires_at: Some(now + duration_secs), ..self }
    }

    /// Whether the session is expired at the given time.
    pub fn is_expired(&self, now: i64) -> (r: bool)
        ensures
            r == expired_spec(*self, now),
    {
        match self.expires_at {
            Some(e) => now > e,
            None => false,
        }
    }

    /// Parses the stored cookie text into a jar; an empty or absent
    /// text yields nothing.
    pub fn get_cookie_jar(&self) -> (r: Result<Option<CookieJar>, ArcaferryError>)
        ensures
            match self.cookies {
                Some(c) => c@.len() > 0 ==> match r {
                    Ok(Some(jar)) => crate::cookies::parse_jar_spec(c@) == Some(jar@),
                    Ok(None) => false,
                    Err(e) => crate::cookies::parse_jar_spec(c@) is None,
                },
                None => r is Ok && match r {
                    Ok(o) => o is None,
                    Err(_) => false,
                },
            },
    {
        match &self.cookies {
            Some(c) => {
                if c.as_str().unicode_len() > 0 {
                    match CookieJar::parse(c.as_str()) {
                        Ok(jar) => Ok(Some(jar)),
                        Err(e) => Err(e),
                    }
                } else {
                    Ok(None)
                }
            },
            None => Ok(None),
        }
    }

    /// An equal copy.
    pub fn duplicate(&self) -> (r: Self)
        ensures
            r.platform == self.platform,
            r.cookies == self.cookies,
            r.bearer_token == self.bearer_token,
            r.created_at == self.created_at,
            r.expires_at == self.expires_at,
    {
        Session {
            platform: self.platform.clone(),
            cookies: crate::quack::clone_opt_string(&self.cookies),
            bearer_token: crate::quack::clone_opt_string(&self.bearer_token),
            created_at: self.created_at,
            expires_at: self.expires_at,
        }
    }
}

/// Index of the first session for a platform.
pub open spec fn find_platform(sessions: Seq<Session>, platform: Seq<char>) -> Option<int>
    decreases sessions.len(),
{
    if sessions.len() == 0 {
        None
    } else if sessions[0].platform@ == platform {
        Some(0int)
    } else {
        match find_platform(sessions.drop_first(), platform) {
            Some(i) => Some(i + 1),
            None => None,
        }
    }
}

proof fn lemma_find_platform(sessions: Seq<Session>, platform: Seq<char>)
    ensures
        match find_platform(sessions, platform) {
            Some(i) => 0 <= i < sessions.len() && sessions[i].platform@ == platform && forall|
                k: int,
            | 0 <= k < i ==> sessions[k].platform@ != platform,
            None => forall|k: int| 0 <= k < sessions.len() ==> sessions[k].platform@ != platform,
        },
    decreases sessions.len(),
{
    if sessions.len() > 0 && sessions[0].platform@ != platform {
        lemma_find_platform(sessions.drop_first(), platform);
        assert(forall|k: int|
            1 <= k < sessions.len() ==> sessions.drop_first()[k - 1] == sessions[k]);
        match find_platform(sessions.drop_first(), platform) {
            Some(i) => {
                assert(sessions[i + 1] == sessions.drop_first()[i]);
            },
            None => {},
        }
    }
}

/// The process-wide map of sessions, keyed by platform.
#[derive(Debug)]
pub struct SessionManager {
    sessions: Vec<Session>,
}

impl View for SessionManager {
    type V = Seq<Session>;

    closed spec fn view(&self) -> Seq<Session> {
        self.sessions@
    }
}

impl SessionManager {
    /// An empty store.
    pub fn new() -> (r: Self)
        ensures
            r@.len() == 0,
    {
        SessionManager { sessions: Vec::new() }
    }

    /// Stores a session, replacing the platform's previous one.
    pub fn set(&mut self, session: Session)
        ensures
            final(self)@ == match find_platform(old(self)@, session.platform@) {
                Some(i) => old(self)@.update(i, session),
                None => old(self)@.push(session),
            },
    {
        proof {
            lemma_find_platform(self@, session.platform@);
        }
        let n = self.sessions.len();
        let mut i: usize = 0;
        while i < n
            invariant
                n == self.sessions@.len(),
                self@ == old(self)@,
                i <= n,
                forall|k: int| 0 <= k < i ==> self@[k].platform@ != session.platform@,
            decreases n - i,
        {
            if str_eq(self.sessions[i].platform.as_str(), session.platform.as_str()) {
                proof {
                    lemma_find_platform(self@, session.platform@);
                    assert(find_platform(self@, session.platform@) == Some(i as int));
                }
                self.sessions[i] = session;
                return;
            }
            i = i + 1;
        }
        proof {
            lemma_find_platform(self@, session.platform@);
        }
        self.sessions.push(session);
    }

    /// Looks a platform's session up; an expired one reads as absent.
    pub fn get(&self, platform: &str, now: i64) -> (r: Option<Session>)
        ensures
            match find_platform(self@, platform@) {
                Some(i) => {
                    &&& expired_spec(self@[i], now) ==> r is None
                    &&& !expired_spec(self@[i], now) ==> match r {
                        Some(s) => {
                            &&& s.platform == self@[i].platform
                            &&& s.cookies == self@[i].cookies
                            &&& s.bearer_token == self@[i].bearer_token
                            &&& s.created_at == self@[i].created_at
                            &&& s.expires_at == self@[i].expires_at
                        },
                        None => false,
                    }
                },
                None => r is None,
            },
    {
        proof {
            lemma_find_platform(self@, platform@);
        }
        let n = self.sessions.len();
        let mut i: usize = 0;
        while i < n
            invariant
                n == self.sessions@.len(),
                self@ == self.sessions@,
                i <= n,
                forall|k: int| 0 <= k < i ==> self@[k].platform@ != platform@,
            decreases n - i,
        {
            if str_eq(self.sessions[i].platform.as_str(), platform) {
                proof {
                    lemma_find_platform(self@, platform@);
                    assert(find_platform(self@, platform@) == Some(i as int));
                }
                if self.sessions[i].is_expired(now) {
                    return None;
                }
                return Some(self.sessions[i].duplicate());
            }
            i = i + 1;
        }
        proof {
            lemma_find_platform(self@, platform@);
        }
        None
    }

    /// Removes and hands back a platform's session.
    pub fn remove(&mut self, platform: &str) -> (r: Option<Session>)
        ensures
            match find_platform(old(self)@, platform@) {
                Some(i) => final(self)@ == old(self)@.remove(i) && match r {
                    Some(s) => s == old(self)@[i],
                    None => false,
                },
                None => final(self)@ == old(self)@ && r is None,
            },
    {
        proof {
            lemma_find_platform(self@, platform@);
        }
        let n = self.sessions.len();
        let mut i: usize = 0;
        while i < n
            invariant
                n == self.sessions@.len(),
                self@ == old(self)@,
                i <= n,
                forall|k: int| 0 <= k < i ==> self@[k].platform@ != platform@,
            decreases n - i,
        {
            if str_eq(self.sessions[i].platform.as_str(), platform) {
                proof {
                    lemma_find_platform(self@, platform@);
                    assert(find_platform(self@, platform@) == Some(i as int));
                }
                let s = self.sessions.remove(i);
                return Some(s);
            }
            i = i + 1;
        }
        proof {
            lemma_find_platform(self@, platform@);
        }
        None
    }

    /// Whether the platform has an unexpired session.
    pub fn has_valid_session(&self, platform: &str, now: i64) -> (r: bool)
        ensures
            r == match find_platform(self@, platform@) {
                Some(i) => !expired_spec(self@[i], now),
                None => false,
            },
    {
        match self.get(platform, now) {
            Some(_) => true,
            None => false,
        }
    }

    /// Forgets every session.
    pub fn clear(&mut self)
        ensures
            final(self)@.len() == 0,
    {
        self.sessions.clear();
    }

    /// The stored platform names, in insertion order.
    pub fn list_platforms(&self) -> (r: Vec<String>)
        ensures
            r@.map_values(|s: String| s@) == self@.map_values(|s: Session| s.platform@),
    {
        let mut out: Vec<String> = Vec::new();
        let n = self.sessions.len();
        let mut i: usize = 0;
        while i < n
            invariant
                n == self.sessions@.len(),
                self@ == self.sessions@,
                i <= n,
                out@.len() == i,
                forall|k: int| 0 <= k < i ==> out@[k]@ == self@[k].platform@,
            decreases n - i,
        {
            out.push(self.sessions[i].platform.clone());
            i = i + 1;
        }
        proof {
            let lhs = out@.map_values(|s: String| s@);
            let rhs = self@.map_values(|s: Session| s.platform@);
            assert(lhs =~= rhs) by {
                assert forall|k: int| 0 <= k < lhs.len() implies #[trigger] lhs[k] == rhs[k] by {
                    assert(lhs[k] == out@[k]@);
                }
            }
        }
        out
    }
}

} // verus!
