//! Reading the shared OAuth credential file of the command-line agent, and
//! choosing among the copies found.

use vstd::prelude::*;
use crate::json::{parse_json, parsed, Json};

verus! {

/// Credential fields read from the agent's credential file.
pub struct CcCreds {
    pub access_token: String,
    pub rate_limit_tier: Option<String>,
    pub subscription_type: Option<String>,
}

pub open spec fn opt_view(o: Option<String>) -> Option<Seq<char>> {
    match o {
        Some(s) => Some(s@),
        None => None,
    }
}

/// What one credential file holds: the text of `expiresAt` when it is a
/// number, the access token, and the two plan hints. `None` when the
/// `claudeAiOauth` block or a non-empty string `accessToken` is missing.
pub open spec fn spec_creds_from_json(v: Json) -> Option<
    (Option<Seq<char>>, Seq<char>, Option<Seq<char>>, Option<Seq<char>>),
> {
    match v.spec_get("claudeAiOauth"@) {
        None => None,
        Some(oauth) => match oauth.spec_get_str("accessToken"@) {
            None => None,
            Some(token) => if token.len() == 0 {
                None
            } else {
                let expires = match oauth.spec_get("expiresAt"@) {
                    Some(Json::Number(t)) => Some(t@),
                    _ => None,
                };
                Some(
                    (
                        expires,
                        token,
                        oauth.spec_get_str("rateLimitTier"@),
                        oauth.spec_get_str("subscriptionType"@),
                    ),
                )
            },
        },
    }
}

fn copy_opt(o: Option<&String>) -> (r: Option<String>)
    ensures
        opt_view(r) == match o {
            Some(s) => Some(s@),
            None => None::<Seq<char>>,
        },
{
    match o {
        Some(s) => Some(s.clone()),
        None => None,
    }
}

/// The credentials in one parsed credential file, with the text of its
/// expiry (milliseconds since the epoch) when present.
pub fn creds_from_json(v: &Json) -> (r: Option<(Option<String>, CcCreds)>)
    ensures
        match r {
            None => spec_creds_from_json(*v) is None,
            Some((e, c)) => spec_creds_from_json(*v) == Some(
                (
                    opt_view(e),
                    c.access_token@,
                    opt_view(c.rate_limit_tier),
                    opt_view(c.subscription_type),
                ),
            ),
        },
{
    let oauth = match v.get("claudeAiOauth") {
        None => return None,
        Some(o) => o,
    };
    let token = match oauth.get_str("accessToken") {
        None => return None,
        Some(t) => t,
    };
    if token.as_str().is_empty() {
        return None;
    }
    let expires = match oauth.get("expiresAt") {
        Some(Json::Number(t)) => Some(t.clone()),
        _ => None,
    };
    let creds = CcCreds {
        access_token: token.clone(),
        rate_limit_tier: copy_opt(oauth.get_str("rateLimitTier")),
        subscription_type: copy_opt(oauth.get_str("subscriptionType")),
    };
    Some((expires, creds))
}

/// Which credential copy to use.
pub enum CredentialChoice {
    /// The copy in the local home directory.
    Local,
    /// The copy at this index among the other candidates.
    Candidate(usize),
    /// None was found.
    Nothing,
}

/// The freshest copy among the local one (if any) and the first `c.len()`
/// candidates, with its expiry; on equal expiries the earlier copy stays.
pub open spec fn freshest(local: Option<int>, c: Seq<i64>) -> Option<(int, CredentialChoice)>
    decreases c.len(),
{
    if c.len() == 0 {
        match local {
            Some(e) => Some((e, CredentialChoice::Local)),
            None => None,
        }
    } else {
        let prev = freshest(local, c.drop_last());
        let e = c.last() as int;
        let here = CredentialChoice::Candidate((c.len() - 1) as usize);
        match prev {
            Some((b, ch)) => if e > b {
                Some((e, here))
            } else {
                prev
            },
            None => Some((e, here)),
        }
    }
}

/// A local copy that has not expired wins outright; otherwise the freshest
/// copy is taken, the local one included.
pub open spec fn spec_pick_credentials(local: Option<int>, now: int, c: Seq<i64>) -> CredentialChoice {
    match local {
        Some(e) if e > now => CredentialChoice::Local,
        _ => match freshest(local, c) {
            Some((_, ch)) => ch,
            None => CredentialChoice::Nothing,
        },
    }
}

/// Whether the local copy decides on its own: it exists and has not expired
/// at `now` (ms). Only when it does not are other copies looked for.
pub fn local_suffices(local: Option<i64>, now: i64) -> (r: bool)
    ensures
        r == (local matches Some(e) && e > now),
{
    match local {
        Some(e) => e > now,
        None => false,
    }
}

/// A live local copy is chosen whatever other copies exist, so they need not
/// be looked for.
pub proof fn lemma_live_local_needs_no_probe(e: int, now: int, c: Seq<i64>)
    requires
        e > now,
    ensures
        spec_pick_credentials(Some(e), now, c) == CredentialChoice::Local,
{
}

/// Chooses between the local credential copy (by its expiry in ms) and the
/// copies found elsewhere, seen at `now` (ms).
pub fn pick_credentials(local: Option<i64>, now: i64, candidates: &Vec<i64>) -> (r:
    CredentialChoice)
    ensures
        r == spec_pick_credentials(
            match local {
                Some(e) => Some(e as int),
                None => None,
            },
            now as int,
            candidates@,
        ),
{
    let ghost lo = match local {
        Some(e) => Some(e as int),
        None => None,
    };
    if let Some(e) = local {
        if e > now {
            return CredentialChoice::Local;
        }
    }
    let mut best: Option<i64> = local;
    let mut choice = match local {
        Some(_) => CredentialChoice::Local,
        None => CredentialChoice::Nothing,
    };
    let n = candidates.len();
    let mut i: usize = 0;
    assert(candidates@.take(0) =~= Seq::<i64>::empty());
    while i < n
        invariant
            n == candidates@.len(),
            i <= n,
            match freshest(lo, candidates@.take(i as int)) {
                Some((b, ch)) => (best matches Some(x) && x as int == b) && choice == ch,
                None => best is None && choice == CredentialChoice::Nothing,
            },
        decreases n - i,
    {
        let e = candidates[i];
        assert(candidates@.take(i + 1).drop_last() =~= candidates@.take(i as int));
        let better = match best {
            Some(b) => e > b,
            None => true,
        };
        if better {
            best = Some(e);
            choice = CredentialChoice::Candidate(i);
        }
        i = i + 1;
    }
    assert(candidates@.take(n as int) =~= candidates@);
    choice
}

/// The copy chosen among several has the latest expiry of all of them.
pub proof fn lemma_freshest_is_latest(local: Option<int>, c: Seq<i64>)
    ensures
        freshest(local, c) is None <==> (local is None && c.len() == 0),
        freshest(local, c) matches Some((b, _)) ==> {
            &&& (local matches Some(l) ==> l <= b)
            &&& forall|i: int| 0 <= i < c.len() ==> c[i] <= b
        },
    decreases c.len(),
{
    if c.len() > 0 {
        lemma_freshest_is_latest(local, c.drop_last());
        assert forall|i: int| 0 <= i < c.len() - 1 implies c[i] == c.drop_last()[i] by {}
    }
}


/// The copy chosen has the latest expiry of all, and of copies with equal
/// expiries the earliest is kept (the local copy before any other).
pub proof fn lemma_freshest_choice(local: Option<int>, c: Seq<i64>)
    requires
        c.len() <= usize::MAX,
    ensures
        freshest(local, c) matches Some((b, ch)) ==> {
            &&& forall|j: int| 0 <= j < c.len() ==> c[j] <= b
            &&& (ch is Local ==> local == Some(b))
            &&& (ch matches CredentialChoice::Candidate(i) ==> {
                &&& 0 <= i < c.len()
                &&& c[i as int] == b
                &&& forall|j: int| 0 <= j < i ==> c[j] < b
                &&& (local matches Some(l) ==> l < b)
            })
            &&& !(ch is Nothing)
        },
    decreases c.len(),
{
    if c.len() > 0 {
        let d = c.drop_last();
        lemma_freshest_choice(local, d);
        lemma_freshest_is_latest(local, d);
        assert forall|j: int| 0 <= j < d.len() implies #[trigger] c[j] == d[j] by {}
        let e = c.last() as int;
        match freshest(local, d) {
            Some((b, ch)) => {
                if e > b {
                    assert forall|j: int| 0 <= j < c.len() implies c[j] <= e by {
                        if j < d.len() {
                            assert(d[j] <= b);
                        }
                    }
                    assert forall|j: int| 0 <= j < c.len() - 1 implies c[j] < e by {
                        assert(d[j] <= b);
                    }
                } else {
                    assert forall|j: int| 0 <= j < c.len() implies c[j] <= b by {
                        if j < d.len() {
                            assert(d[j] <= b);
                        }
                    }
                    if let CredentialChoice::Candidate(i) = ch {
                        assert forall|j: int| 0 <= j < i implies c[j] < b by {
                            assert(d[j] < b);
                        }
                        assert(c[i as int] == d[i as int]);
                    }
                }
            },
            None => {},
        }
    }
}

/// What is picked: a live local copy; otherwise the copy with the latest
/// expiry (the earliest of equals, the local one first); nothing only when
/// there is no copy at all.
pub proof fn lemma_pick_is_freshest(local: Option<int>, now: int, c: Seq<i64>)
    requires
        c.len() <= usize::MAX,
    ensures
        spec_pick_credentials(local, now, c) is Nothing <==> (local is None && c.len() == 0),
        spec_pick_credentials(local, now, c) is Local ==> local is Some && (local->0 > now
            || forall|j: int| 0 <= j < c.len() ==> c[j] <= local->0),
        spec_pick_credentials(local, now, c) matches CredentialChoice::Candidate(i) ==> {
            &&& 0 <= i < c.len()
            &&& forall|j: int| 0 <= j < c.len() ==> c[j] <= c[i as int]
            &&& forall|j: int| 0 <= j < i ==> c[j] < c[i as int]
            &&& (local matches Some(l) ==> l < c[i as int] && l <= now)
        },
{
    lemma_freshest_choice(local, c);
    lemma_freshest_is_latest(local, c);
}

/// The agent's credentials in a credential file's JSON text, with the
/// `expiresAt` number's text.
pub fn creds_from_text(text: &str) -> (r: Option<(Option<String>, CcCreds)>)
    ensures
        match r {
            None => parsed(text@) matches Some(v) ==> spec_creds_from_json(v) is None,
            Some((e, c)) => parsed(text@) matches Some(v) && spec_creds_from_json(v) == Some(
                (
                    opt_view(e),
                    c.access_token@,
                    opt_view(c.rate_limit_tier),
                    opt_view(c.subscription_type),
                ),
            ),
        },
{
    match parse_json(text) {
        Ok(v) => creds_from_json(&v),
        Err(_) => None,
    }
}

} // verus!
