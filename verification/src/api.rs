//! The usage service's requests and responses: headers, addresses, error
//! categories, organization choice and plan detection.

use vstd::prelude::*;
use crate::cc::{opt_view, CcCreds};
use crate::json::{json_text, parse_json, str_is, Json};
use crate::number::{decimal, push_decimal};
use crate::text::{chars_of, contains, contains_exec, lowered, lowered_chars};

verus! {

pub const ANTHROPIC_BASE: &'static str = "https://api.anthropic.com/api";

pub const USER_AGENT: &'static str = "Mozilla/5.0 (Windows NT 10.0; Win64; x64) AppleWebKit/537.36 Chrome/131.0.0.0";

pub const CC_OAUTH_BETA: &'static str = "oauth-2025-04-20";

pub const ANTHROPIC_VERSION: &'static str = "2023-06-01";

/// Which credential source a client authenticates with.
pub enum AuthSource {
    /// The command-line agent's OAuth token, read afresh for each request.
    ClaudeCode,
    /// The web session cookie captured at login, with any further cookies
    /// (each name once, as read from a JSON object).
    Session { session_key: String, extra_cookies: Vec<(String, String)> },
}

/// The kind of an [`AuthSource`], without its secrets.
#[derive(Clone, Copy, PartialEq, Eq, Structural)]
pub enum AuthKind {
    ClaudeCode,
    Session,
}

/// A categorized request failure.
#[derive(Debug)]
pub enum ApiError {
    RateLimited,
    Http(u16),
    Other(String),
}

impl ApiError {
    pub open spec fn spec_is_auth(&self) -> bool {
        *self matches ApiError::Http(401)
    }

    pub open spec fn spec_is_client_error(&self) -> bool {
        match *self {
            ApiError::RateLimited => true,
            ApiError::Http(code) => 400 <= code < 500,
            ApiError::Other(_) => false,
        }
    }

    /// The text shown for the error.
    pub open spec fn spec_message(&self) -> Seq<char> {
        match *self {
            ApiError::RateLimited => "Rate limited (429)"@,
            ApiError::Http(code) => "HTTP "@ + decimal(code as nat),
            ApiError::Other(s) => s@,
        }
    }

    /// HTTP 401: the access token expired.
    pub fn is_auth(&self) -> (r: bool)
        ensures
            r == self.spec_is_auth(),
    {
        match self {
            ApiError::Http(code) => *code == 401,
            _ => false,
        }
    }

    /// Any HTTP 4xx, rate limiting (429) included.
    pub fn is_client_error(&self) -> (r: bool)
        ensures
            r == self.spec_is_client_error(),
    {
        match self {
            ApiError::RateLimited => true,
            ApiError::Http(code) => 400 <= *code && *code < 500,
            ApiError::Other(_) => false,
        }
    }

    /// The error's text: `"Rate limited (429)"`, `"HTTP <code>"` or the
    /// message itself.
    pub fn message(&self) -> (r: String)
        ensures
            r@ == self.spec_message(),
    {
        match self {
            ApiError::RateLimited => String::from_str("Rate limited (429)"),
            ApiError::Http(code) => {
                let mut s = String::from_str("HTTP ");
                push_decimal(&mut s, *code as u64);
                s
            },
            ApiError::Other(m) => m.clone(),
        }
    }
}

/// An expired token is a client error.
pub proof fn lemma_auth_is_client_error(e: ApiError)
    requires
        e.spec_is_auth(),
    ensures
        e.spec_is_client_error(),
{
}

/// The error for an HTTP status that is not a success.
pub fn error_from_status(code: u16) -> (r: ApiError)
    ensures
        code == 429 ==> r is RateLimited,
        code != 429 ==> r == ApiError::Http(code),
{
    if code == 429 {
        ApiError::RateLimited
    } else {
        ApiError::Http(code)
    }
}

/// The error for a request that failed before any status arrived.
pub fn request_failed(detail: &str) -> (r: ApiError)
    ensures
        r matches ApiError::Other(m) && m@ == "Request failed: "@ + detail@,
{
    let mut m = String::from_str("Request failed: ");
    m.append(detail);
    ApiError::Other(m)
}

/// The error for a body that is not JSON.
pub fn json_parse_failed(detail: &str) -> (r: ApiError)
    ensures
        r matches ApiError::Other(m) && m@ == "JSON parse error: "@ + detail@,
{
    let mut m = String::from_str("JSON parse error: ");
    m.append(detail);
    ApiError::Other(m)
}

/// `; name=value` for each further cookie, in order.
pub open spec fn cookie_tail(extras: Seq<(String, String)>) -> Seq<char>
    decreases extras.len(),
{
    if extras.len() == 0 {
        Seq::empty()
    } else {
        cookie_tail(extras.drop_last()) + "; "@ + extras.last().0@ + "="@ + extras.last().1@
    }
}

/// The `Cookie` header: `sessionKey=<key>` then `; name=value` per cookie.
pub open spec fn spec_cookie_header(session_key: Seq<char>, extras: Seq<(String, String)>) -> Seq<
    char,
> {
    "sessionKey="@ + session_key + cookie_tail(extras)
}

pub fn cookie_header(session_key: &str, extras: &Vec<(String, String)>) -> (r: String)
    ensures
        r@ == spec_cookie_header(session_key@, extras@),
{
    let mut s = String::from_str("sessionKey=");
    s.append(session_key);
    let n = extras.len();
    let mut i: usize = 0;
    assert(extras@.take(0) =~= Seq::<(String, String)>::empty());
    while i < n
        invariant
            n == extras@.len(),
            i <= n,
            s@ == spec_cookie_header(session_key@, extras@.take(i as int)),
        decreases n - i,
    {
        assert(extras@.take(i + 1).drop_last() =~= extras@.take(i as int));
        s.append("; ");
        s.append(extras[i].0.as_str());
        s.append("=");
        s.append(extras[i].1.as_str());
        i = i + 1;
        assert(s@ =~= spec_cookie_header(session_key@, extras@.take(i as int)));
    }
    assert(extras@.take(n as int) =~= extras@);
    s
}

pub open spec fn header_views(h: Seq<(String, String)>) -> Seq<(Seq<char>, Seq<char>)> {
    h.map_values(|p: (String, String)| (p.0@, p.1@))
}

/// The headers of a request: `Accept` and `User-Agent`, then the session
/// cookie and client platform, or the agent's bearer token and the OAuth
/// beta and API version. `None` when the agent's credentials are needed and
/// absent.
pub open spec fn spec_request_headers(auth: AuthSource, creds: Option<CcCreds>) -> Option<
    Seq<(Seq<char>, Seq<char>)>,
> {
    let base = seq![("Accept"@, "application/json"@), ("User-Agent"@, USER_AGENT@)];
    match auth {
        AuthSource::Session { session_key, extra_cookies } => Some(
            base + seq![
                ("Cookie"@, spec_cookie_header(session_key@, extra_cookies@)),
                ("anthropic-client-platform"@, "web_claude_ai"@),
            ],
        ),
        AuthSource::ClaudeCode => match creds {
            None => None,
            Some(c) => Some(
                base + seq![
                    ("Authorization"@, "Bearer "@ + c.access_token@),
                    ("anthropic-beta"@, CC_OAUTH_BETA@),
                    ("anthropic-version"@, ANTHROPIC_VERSION@),
                ],
            ),
        },
    }
}

fn header(name: &str, value: String) -> (r: (String, String))
    ensures
        r.0@ == name@,
        r.1@ == value@,
{
    (String::from_str(name), value)
}

/// Headers for one request with `auth`; `creds` are the agent's credentials
/// as read for this request, and `agent_name` is the agent's product name,
/// which heads the error when they are missing.
pub fn request_headers(auth: &AuthSource, creds: Option<&CcCreds>, agent_name: &str) -> (r: Result<
    Vec<(String, String)>,
    ApiError,
>)
    ensures
        match r {
            Ok(h) => spec_request_headers(*auth, match creds {
                Some(c) => Some(*c),
                None => None,
            }) == Some(header_views(h@)),
            Err(e) => spec_request_headers(*auth, match creds {
                Some(c) => Some(*c),
                None => None,
            }) is None && (e matches ApiError::Other(m) && m@
                == agent_name@ + " credentials not found"@),
        },
{
    let mut h: Vec<(String, String)> = Vec::new();
    h.push(header("Accept", String::from_str("application/json")));
    h.push(header("User-Agent", String::from_str(USER_AGENT)));
    match auth {
        AuthSource::Session { session_key, extra_cookies } => {
            h.push(header("Cookie", cookie_header(session_key.as_str(), extra_cookies)));
            h.push(header("anthropic-client-platform", String::from_str("web_claude_ai")));
        },
        AuthSource::ClaudeCode => {
            match creds {
                None => {
                    let mut m = String::from_str(agent_name);
                    m.append(" credentials not found");
                    return Err(ApiError::Other(m));
                },
                Some(c) => {
                    let mut bearer = String::from_str("Bearer ");
                    bearer.append(c.access_token.as_str());
                    h.push(header("Authorization", bearer));
                    h.push(header("anthropic-beta", String::from_str(CC_OAUTH_BETA)));
                    h.push(header("anthropic-version", String::from_str(ANTHROPIC_VERSION)));
                },
            }
        },
    }
    assert(header_views(h@) =~= spec_request_headers(*auth, match creds {
        Some(c) => Some(*c),
        None => None,
    })->0);
    Ok(h)
}

/// The address that lists the account's organizations, under the web
/// service's API base `web_base`.
pub fn organizations_url(web_base: &str) -> (r: String)
    ensures
        r@ == web_base@ + "/organizations"@,
{
    let mut s = String::from_str(web_base);
    s.append("/organizations");
    s
}

pub open spec fn spec_usage_url(auth: AuthSource, org_id: Seq<char>, web_base: Seq<char>) -> Seq<
    char,
> {
    match auth {
        AuthSource::ClaudeCode => ANTHROPIC_BASE@ + "/oauth/usage"@,
        AuthSource::Session { .. } => web_base + "/organizations/"@ + org_id + "/usage"@,
    }
}

/// The address of the usage report for `auth`: the OAuth usage endpoint, or
/// the organization's report under the web service's API base `web_base`.
pub fn usage_url(auth: &AuthSource, org_id: &str, web_base: &str) -> (r: String)
    ensures
        r@ == spec_usage_url(*auth, org_id@, web_base@),
{
    match auth {
        AuthSource::ClaudeCode => {
            let mut s = String::from_str(ANTHROPIC_BASE);
            s.append("/oauth/usage");
            s
        },
        AuthSource::Session { .. } => {
            let mut s = String::from_str(web_base);
            s.append("/organizations/");
            s.append(org_id);
            s.append("/usage");
            s
        },
    }
}

/// A usage body that is a success: no `error` member, and a `five_hour` or
/// a `seven_day` member.
pub fn check_usage_shape(raw: &Json) -> (r: Result<(), ApiError>)
    ensures
        raw.spec_get("error"@) is Some ==> (r matches Err(ApiError::Other(m)) && m@
            == "API returned an error object"@),
        raw.spec_get("error"@) is None && raw.spec_get("five_hour"@) is None && raw.spec_get(
            "seven_day"@,
        ) is None ==> (r matches Err(ApiError::Other(m)) && m@
            == "Unexpected usage response shape"@),
        raw.spec_get("error"@) is None && (raw.spec_get("five_hour"@) is Some || raw.spec_get(
            "seven_day"@,
        ) is Some) ==> r is Ok,
{
    if raw.get("error").is_some() {
        return Err(ApiError::Other(String::from_str("API returned an error object")));
    }
    if raw.get("five_hour").is_none() && raw.get("seven_day").is_none() {
        return Err(ApiError::Other(String::from_str("Unexpected usage response shape")));
    }
    Ok(())
}

/// The plan name that a raw hint (a rate-limit tier, capability list or plan
/// type) names, by keyword, ignoring ASCII case: enterprise, team, max (with
/// its 20x or 5x multiplier), pro, free; `None` when no keyword occurs.
///
/// Only ASCII capitals are lowered here. Full Unicode lowercasing would give
/// the same answers for these keywords: the only other characters whose
/// lowercase holds ASCII letters (U+212A, which lowers to `k`, and U+0130,
/// which lowers to `i` and a combining dot) cannot complete a keyword.
pub open spec fn spec_plan_from_hint(raw: Seq<char>) -> Option<Seq<char>> {
    let l = lowered(raw);
    if contains(l, "enterprise"@) {
        Some("Enterprise"@)
    } else if contains(l, "team"@) {
        Some("Team"@)
    } else if contains(l, "max"@) {
        if contains(l, "20"@) {
            Some("Max (20x)"@)
        } else if contains(l, "5"@) {
            Some("Max (5x)"@)
        } else {
            Some("Max"@)
        }
    } else if contains(l, "pro"@) {
        Some("Pro"@)
    } else if contains(l, "free"@) {
        Some("Free"@)
    } else {
        None
    }
}

pub fn plan_from_hint(raw: &str) -> (r: Option<String>)
    ensures
        opt_view(r) == spec_plan_from_hint(raw@),
{
    let l = lowered_chars(raw);
    if contains_exec(&l, "enterprise") {
        Some(String::from_str("Enterprise"))
    } else if contains_exec(&l, "team") {
        Some(String::from_str("Team"))
    } else if contains_exec(&l, "max") {
        if contains_exec(&l, "20") {
            Some(String::from_str("Max (20x)"))
        } else if contains_exec(&l, "5") {
            Some(String::from_str("Max (5x)"))
        } else {
            Some(String::from_str("Max"))
        }
    } else if contains_exec(&l, "pro") {
        Some(String::from_str("Pro"))
    } else if contains_exec(&l, "free") {
        Some(String::from_str("Free"))
    } else {
        None
    }
}

/// The plan named by the agent's stored tier, else by its subscription type,
/// else `"Pro"`.
pub open spec fn spec_plan_from_creds(creds: CcCreds) -> Seq<char> {
    let tier = match creds.rate_limit_tier {
        Some(t) => spec_plan_from_hint(t@),
        None => None,
    };
    let sub = match creds.subscription_type {
        Some(t) => spec_plan_from_hint(t@),
        None => None,
    };
    match tier {
        Some(p) => p,
        None => match sub {
            Some(p) => p,
            None => "Pro"@,
        },
    }
}

fn hint_of(o: &Option<String>) -> (r: Option<String>)
    ensures
        opt_view(r) == match *o {
            Some(t) => spec_plan_from_hint(t@),
            None => None,
        },
{
    match o {
        Some(t) => plan_from_hint(t.as_str()),
        None => None,
    }
}

/// The plan name from the agent's stored credential fields.
pub fn plan_from_creds(creds: &CcCreds) -> (r: String)
    ensures
        r@ == spec_plan_from_creds(*creds),
{
    match hint_of(&creds.rate_limit_tier) {
        Some(p) => p,
        None => match hint_of(&creds.subscription_type) {
            Some(p) => p,
            None => String::from_str("Pro"),
        },
    }
}

/// Whether an organization lists the `chat` capability.
pub open spec fn has_chat(org: Json) -> bool {
    match org.spec_get("capabilities"@) {
        Some(Json::Array(caps)) => exists|i: int|
            0 <= i < caps@.len() && #[trigger] caps@[i].spec_str() == Some("chat"@),
        _ => false,
    }
}

/// Index of the first organization with the `chat` capability, or the count.
pub open spec fn first_chat(orgs: Seq<Json>) -> nat
    decreases orgs.len(),
{
    if orgs.len() == 0 {
        0
    } else if has_chat(orgs[0]) {
        0
    } else {
        1 + first_chat(orgs.drop_first())
    }
}

/// The subscription organization: the first with the `chat` capability, else
/// the first of all; `None` when there are none.
pub open spec fn spec_pick_org(orgs: Seq<Json>) -> Option<int> {
    if orgs.len() == 0 {
        None
    } else if first_chat(orgs) < orgs.len() {
        Some(first_chat(orgs) as int)
    } else {
        Some(0)
    }
}

proof fn lemma_first_chat(orgs: Seq<Json>, i: int)
    requires
        0 <= i <= orgs.len(),
        forall|j: int| 0 <= j < i ==> !has_chat(#[trigger] orgs[j]),
        i == orgs.len() || has_chat(orgs[i]),
    ensures
        first_chat(orgs) == i,
    decreases i,
{
    if i > 0 {
        let t = orgs.drop_first();
        assert forall|j: int| 0 <= j < i - 1 implies !has_chat(#[trigger] t[j]) by {
            assert(t[j] == orgs[j + 1]);
        }
        if i < orgs.len() {
            assert(t[i - 1] == orgs[i]);
        }
        assert(!has_chat(orgs[0]));
        lemma_first_chat(t, i - 1);
    }
}

/// The `chat` organization is never passed over: when any organization
/// lists `chat`, the one chosen does.
pub proof fn lemma_pick_prefers_chat(orgs: Seq<Json>, k: int)
    requires
        0 <= k < orgs.len(),
        has_chat(orgs[k]),
    ensures
        spec_pick_org(orgs) matches Some(i) && has_chat(orgs[i]) && i <= k,
    decreases k,
{
    if !has_chat(orgs[0]) {
        let t = orgs.drop_first();
        assert(t[k - 1] == orgs[k]);
        lemma_pick_prefers_chat(t, k - 1);
        assert(t[first_chat(t) as int] == orgs[first_chat(orgs) as int]);
    }
}

fn org_has_chat(org: &Json) -> (r: bool)
    ensures
        r == has_chat(*org),
{
    match org.get("capabilities") {
        Some(Json::Array(caps)) => {
            let chat = chars_of("chat");
            let n = caps.len();
            let mut i: usize = 0;
            while i < n
                invariant
                    n == caps@.len(),
                    chat@ == "chat"@,
                    i <= n,
                    org.spec_get("capabilities"@) == Some(Json::Array(*caps)),
                    forall|j: int| 0 <= j < i ==> #[trigger] caps@[j].spec_str() != Some("chat"@),
                decreases n - i,
            {
                if let Some(s) = caps[i].as_str() {
                    if str_is(s, &chat) {
                        assert(caps@[i as int].spec_str() == Some("chat"@));
                        return true;
                    }
                }
                i = i + 1;
            }
            false
        },
        _ => false,
    }
}

/// Chooses the subscription organization among `orgs`.
pub fn pick_org(orgs: &Vec<Json>) -> (r: Option<usize>)
    ensures
        match r {
            Some(i) => spec_pick_org(orgs@) == Some(i as int),
            None => spec_pick_org(orgs@) is None,
        },
{
    let n = orgs.len();
    let mut i: usize = 0;
    while i < n
        invariant
            n == orgs@.len(),
            i <= n,
            forall|j: int| 0 <= j < i ==> !has_chat(#[trigger] orgs@[j]),
        decreases n - i,
    {
        if org_has_chat(&orgs[i]) {
            proof {
                lemma_first_chat(orgs@, i as int);
            }
            return Some(i);
        }
        i = i + 1;
    }
    proof {
        lemma_first_chat(orgs@, n as int);
    }
    if n == 0 {
        None
    } else {
        Some(0)
    }
}

/// The strings among `items`, in order.
pub open spec fn str_items(items: Seq<Json>) -> Seq<Seq<char>> {
    items.filter_map(|j: Json| j.spec_str())
}

/// `parts` joined with `,`.
pub open spec fn join_commas(parts: Seq<Seq<char>>) -> Seq<char>
    decreases parts.len(),
{
    if parts.len() == 0 {
        Seq::empty()
    } else if parts.len() == 1 {
        parts[0]
    } else {
        join_commas(parts.drop_last()) + ","@ + parts.last()
    }
}

fn join_str_items(items: &Vec<Json>) -> (r: String)
    ensures
        r@ == join_commas(str_items(items@)),
{
    let mut s = String::new();
    let n = items.len();
    let mut i: usize = 0;
    let mut count: usize = 0;
    assert(items@.take(0) =~= Seq::<Json>::empty());
    assert(str_items(Seq::<Json>::empty()) =~= Seq::<Seq<char>>::empty());
    while i < n
        invariant
            n == items@.len(),
            i <= n,
            count == str_items(items@.take(i as int)).len(),
            count <= i,
            s@ == join_commas(str_items(items@.take(i as int))),
        decreases n - i,
    {
        let ghost prev = str_items(items@.take(i as int));
        assert(items@.take(i + 1).drop_last() =~= items@.take(i as int));
        assert(items@.take(i + 1).last() == items@[i as int]);
        if let Some(t) = items[i].as_str() {
            assert(str_items(items@.take(i + 1)) =~= prev.push(t@));
            assert(prev.push(t@).drop_last() =~= prev);
            if count > 0 {
                s.append(",");
            }
            s.append(t.as_str());
            count = count + 1;
        } else {
            assert(str_items(items@.take(i + 1)) =~= prev);
        }
        i = i + 1;
    }
    assert(items@.take(n as int) =~= items@);
    s
}

/// The plan of one organization: from its `rate_limit_tier`, else its
/// `capabilities` (the string entries joined with `,`), else its
/// `billing.plan_type` (or `billing.plan` when `plan_type` is absent); each
/// read as a hint, and `"Pro"` when none names a plan.
pub open spec fn spec_detect_plan(org: Json) -> Seq<char> {
    let tier = match org.spec_get_str("rate_limit_tier"@) {
        Some(t) => spec_plan_from_hint(t),
        None => None,
    };
    let caps = match org.spec_get("capabilities"@) {
        Some(Json::Array(c)) => spec_plan_from_hint(join_commas(str_items(c@))),
        _ => None,
    };
    let billing = match org.spec_get("billing"@) {
        Some(b) => {
            let field = match b.spec_get("plan_type"@) {
                Some(v) => Some(v),
                None => b.spec_get("plan"@),
            };
            match field {
                Some(v) => match v.spec_str() {
                    Some(t) => spec_plan_from_hint(t),
                    None => None,
                },
                None => None,
            }
        },
        None => None,
    };
    match tier {
        Some(p) => p,
        None => match caps {
            Some(p) => p,
            None => match billing {
                Some(p) => p,
                None => "Pro"@,
            },
        },
    }
}

/// Detects the plan from one organization's record; always `Ok`.
pub fn detect_plan_from_org(org: &Json) -> (r: Result<String, String>)
    ensures
        r matches Ok(p) && p@ == spec_detect_plan(*org),
{
    if let Some(t) = org.get_str("rate_limit_tier") {
        if let Some(p) = plan_from_hint(t.as_str()) {
            return Ok(p);
        }
    }
    if let Some(Json::Array(caps)) = org.get("capabilities") {
        let joined = join_str_items(caps);
        if let Some(p) = plan_from_hint(joined.as_str()) {
            return Ok(p);
        }
    }
    if let Some(b) = org.get("billing") {
        let field = match b.get("plan_type") {
            Some(v) => Some(v),
            None => b.get("plan"),
        };
        if let Some(v) = field {
            if let Some(t) = v.as_str() {
                if let Some(p) = plan_from_hint(t.as_str()) {
                    return Ok(p);
                }
            }
        }
    }
    Ok(String::from_str("Pro"))
}

/// The id of the subscription organization in an organization listing.
pub open spec fn spec_org_id_from_orgs(body: Json) -> Result<Seq<char>, Seq<char>> {
    match body {
        Json::Array(orgs) => match spec_pick_org(orgs@) {
            Some(i) => match orgs@[i].spec_get_str("uuid"@) {
                Some(u) => Ok(u),
                None => Err("No organizations found"@),
            },
            None => Err("No organizations found"@),
        },
        _ => Err("No organizations found"@),
    }
}

pub fn org_id_from_orgs(body: &Json) -> (r: Result<String, String>)
    ensures
        match r {
            Ok(u) => spec_org_id_from_orgs(*body) == Ok::<Seq<char>, Seq<char>>(u@),
            Err(e) => spec_org_id_from_orgs(*body) == Err::<Seq<char>, Seq<char>>(e@),
        },
{
    match body {
        Json::Array(orgs) => match pick_org(orgs) {
            Some(i) => match orgs[i].get_str("uuid") {
                Some(u) => Ok(u.clone()),
                None => Err(String::from_str("No organizations found")),
            },
            None => Err(String::from_str("No organizations found")),
        },
        _ => Err(String::from_str("No organizations found")),
    }
}

/// The plan of the subscription organization in an organization listing.
pub open spec fn spec_plan_from_orgs(body: Json) -> Result<Seq<char>, Seq<char>> {
    match body {
        Json::Array(orgs) => match spec_pick_org(orgs@) {
            Some(i) => Ok(spec_detect_plan(orgs@[i])),
            None => Err("No organizations"@),
        },
        _ => Err("No organizations"@),
    }
}

pub fn plan_from_orgs(body: &Json) -> (r: Result<String, String>)
    ensures
        match r {
            Ok(p) => spec_plan_from_orgs(*body) == Ok::<Seq<char>, Seq<char>>(p@),
            Err(e) => spec_plan_from_orgs(*body) == Err::<Seq<char>, Seq<char>>(e@),
        },
{
    match body {
        Json::Array(orgs) => match pick_org(orgs) {
            Some(i) => detect_plan_from_org(&orgs[i]),
            None => Err(String::from_str("No organizations")),
        },
        _ => Err(String::from_str("No organizations")),
    }
}


/// A response body's document; a body that is not JSON is the error
/// `JSON parse error: <the parser's message>`.
pub fn json_body(text: &str) -> (r: Result<Json, ApiError>)
    ensures
        match json_text(text@) {
            Ok(j) => r == Ok::<Json, ApiError>(j),
            Err(m) => r matches Err(ApiError::Other(e)) && e@ == "JSON parse error: "@ + m,
        },
{
    match parse_json(text) {
        Ok(v) => Ok(v),
        Err(m) => Err(json_parse_failed(m.as_str())),
    }
}


/// The rate-limit tier is read first: whenever it names a plan, that plan
/// is detected, whatever the capabilities and billing say.
pub proof fn lemma_tier_decides_plan(org: Json)
    requires
        org.spec_get_str("rate_limit_tier"@) matches Some(t) && spec_plan_from_hint(t) is Some,
    ensures
        spec_detect_plan(org) == spec_plan_from_hint(org.spec_get_str("rate_limit_tier"@)->0)->0,
{
}

/// The plan an organization's capability list names, if any.
pub open spec fn capabilities_plan(org: Json) -> Option<Seq<char>> {
    match org.spec_get("capabilities"@) {
        Some(Json::Array(c)) => spec_plan_from_hint(join_commas(str_items(c@))),
        _ => None,
    }
}

/// The plan an organization's billing record names (`plan_type`, else
/// `plan`), if any.
pub open spec fn billing_plan(org: Json) -> Option<Seq<char>> {
    match org.spec_get("billing"@) {
        Some(b) => {
            let v = if b.spec_get("plan_type"@) is Some {
                b.spec_get("plan_type"@)
            } else {
                b.spec_get("plan"@)
            };
            if v is Some && v->0.spec_str() is Some {
                spec_plan_from_hint(v->0.spec_str()->0)
            } else {
                None
            }
        },
        None => None,
    }
}

/// The plan an organization's rate-limit tier names, if any.
pub open spec fn tier_plan(org: Json) -> Option<Seq<char>> {
    if org.spec_get_str("rate_limit_tier"@) is Some {
        spec_plan_from_hint(org.spec_get_str("rate_limit_tier"@)->0)
    } else {
        None
    }
}

/// Without a plan in the tier, the capabilities decide; without one there
/// either, the billing plan; and `"Pro"` when none names a plan.
pub proof fn lemma_plan_fallbacks(org: Json)
    ensures
        tier_plan(org) is None && capabilities_plan(org) is Some ==> spec_detect_plan(org)
            == capabilities_plan(org)->0,
        tier_plan(org) is None && capabilities_plan(org) is None && billing_plan(org) is Some
            ==> spec_detect_plan(org) == billing_plan(org)->0,
        tier_plan(org) is None && capabilities_plan(org) is None && billing_plan(org) is None
            ==> spec_detect_plan(org) == "Pro"@,
{
}

/// A plan in the credentials' rate-limit tier wins; without one, a plan
/// named by the subscription type; else `"Pro"`.
pub proof fn lemma_creds_plan_order(creds: CcCreds)
    ensures
        creds.rate_limit_tier is Some && spec_plan_from_hint(creds.rate_limit_tier->0@) is Some
            ==> spec_plan_from_creds(creds) == spec_plan_from_hint(creds.rate_limit_tier->0@)->0,
        !(creds.rate_limit_tier is Some && spec_plan_from_hint(creds.rate_limit_tier->0@) is Some)
            && creds.subscription_type is Some && spec_plan_from_hint(
            creds.subscription_type->0@,
        ) is Some ==> spec_plan_from_creds(creds) == spec_plan_from_hint(
            creds.subscription_type->0@,
        )->0,
        !(creds.rate_limit_tier is Some && spec_plan_from_hint(creds.rate_limit_tier->0@) is Some)
            && !(creds.subscription_type is Some && spec_plan_from_hint(
            creds.subscription_type->0@,
        ) is Some) ==> spec_plan_from_creds(creds) == "Pro"@,
{
}


/// Case does not matter in a hint: a hint reads as its ASCII-lowercased
/// text does.
pub proof fn lemma_hint_ignores_case(raw: Seq<char>)
    ensures
        spec_plan_from_hint(lowered(raw)) == spec_plan_from_hint(raw),
{
    assert forall|i: int| 0 <= i < raw.len() implies #[trigger] crate::text::ascii_lower(
        crate::text::ascii_lower(raw[i]),
    ) == crate::text::ascii_lower(raw[i]) by {
        let c = raw[i];
        if 'A' <= c && c <= 'Z' {
            assert(('a' as u32) <= (crate::text::ascii_lower(c) as u32));
        }
    }
    assert(lowered(lowered(raw)) =~= lowered(raw));
}

} // verus!
