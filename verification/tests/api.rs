use usage_tank::api::{
    check_usage_shape, cookie_header, detect_plan_from_org, error_from_status, json_parse_failed,
    org_id_from_orgs, organizations_url, pick_org, plan_from_creds, plan_from_hint,
    plan_from_orgs, request_failed, request_headers, usage_url, ApiError, AuthSource,
    USER_AGENT,
};
use usage_tank::cc::CcCreds;
use usage_tank::json::Json;

fn s(t: &str) -> Json {
    Json::Str(t.to_string())
}

fn obj(members: Vec<(&str, Json)>) -> Json {
    Json::Object(members.into_iter().map(|(k, v)| (k.to_string(), v)).collect())
}

fn other(e: ApiError) -> String {
    match e {
        ApiError::Other(m) => m,
        e => panic!("expected Other, got {:?}", e),
    }
}

#[test]
fn classifies_errors() {
    assert!(ApiError::Http(401).is_auth());
    assert!(!ApiError::Http(403).is_auth());
    assert!(!ApiError::RateLimited.is_auth());
    assert!(ApiError::Http(401).is_client_error());
    assert!(ApiError::Http(404).is_client_error());
    assert!(ApiError::RateLimited.is_client_error());
    assert!(!ApiError::Http(500).is_client_error());
    assert!(!ApiError::Http(399).is_client_error());
    assert!(!ApiError::Other("x".to_string()).is_client_error());
}

#[test]
fn error_messages() {
    assert_eq!(ApiError::RateLimited.message(), "Rate limited (429)");
    assert_eq!(ApiError::Http(503).message(), "HTTP 503");
    assert_eq!(ApiError::Other("boom".to_string()).message(), "boom");
    assert!(matches!(error_from_status(429), ApiError::RateLimited));
    assert!(matches!(error_from_status(401), ApiError::Http(401)));
    assert_eq!(other(request_failed("timeout")), "Request failed: timeout");
    assert_eq!(other(json_parse_failed("eof")), "JSON parse error: eof");
}

#[test]
fn maps_hints_to_plans() {
    assert_eq!(plan_from_hint("default_claude_max_20x").as_deref(), Some("Max (20x)"));
    assert_eq!(plan_from_hint("default_claude_max_5x").as_deref(), Some("Max (5x)"));
    assert_eq!(plan_from_hint("CLAUDE_MAX").as_deref(), Some("Max"));
    assert_eq!(plan_from_hint("default_claude_pro").as_deref(), Some("Pro"));
    assert_eq!(plan_from_hint("chat,enterprise").as_deref(), Some("Enterprise"));
    assert_eq!(plan_from_hint("Team").as_deref(), Some("Team"));
    assert_eq!(plan_from_hint("free").as_deref(), Some("Free"));
    assert_eq!(plan_from_hint("chat,api"), None);
    assert_eq!(plan_from_hint(""), None);
}

#[test]
fn plan_from_stored_credentials() {
    let c = |t: Option<&str>, s: Option<&str>| CcCreds {
        access_token: "tok".to_string(),
        rate_limit_tier: t.map(String::from),
        subscription_type: s.map(String::from),
    };
    assert_eq!(plan_from_creds(&c(Some("default_claude_max_20x"), Some("pro"))), "Max (20x)");
    assert_eq!(plan_from_creds(&c(Some("unknown"), Some("team"))), "Team");
    assert_eq!(plan_from_creds(&c(None, None)), "Pro");
}

#[test]
fn builds_cookie_header() {
    assert_eq!(cookie_header("sk-1", &vec![]), "sessionKey=sk-1");
    let extras = vec![("a".to_string(), "1".to_string()), ("b".to_string(), "2".to_string())];
    assert_eq!(cookie_header("sk-1", &extras), "sessionKey=sk-1; a=1; b=2");
}

#[test]
fn builds_request_headers() {
    let auth = AuthSource::Session { session_key: "k".to_string(), extra_cookies: vec![] };
    let h = request_headers(&auth, None, "Agent").unwrap();
    assert_eq!(h.len(), 4);
    assert_eq!(h[0], ("Accept".to_string(), "application/json".to_string()));
    assert_eq!(h[1], ("User-Agent".to_string(), USER_AGENT.to_string()));
    assert_eq!(h[2], ("Cookie".to_string(), "sessionKey=k".to_string()));
    assert_eq!(h[3].0, "anthropic-client-platform");

    let creds = CcCreds { access_token: "abc".to_string(), rate_limit_tier: None, subscription_type: None };
    let h = request_headers(&AuthSource::ClaudeCode, Some(&creds), "Agent").unwrap();
    assert_eq!(h.len(), 5);
    assert_eq!(h[2], ("Authorization".to_string(), "Bearer abc".to_string()));
    assert_eq!(h[3], ("anthropic-beta".to_string(), "oauth-2025-04-20".to_string()));
    assert_eq!(h[4], ("anthropic-version".to_string(), "2023-06-01".to_string()));

    let e = request_headers(&AuthSource::ClaudeCode, None, "Code Agent").unwrap_err();
    assert_eq!(other(e), "Code Agent credentials not found");
}

#[test]
fn builds_addresses() {
    let base = "https://web.example/api";
    assert_eq!(organizations_url(base), "https://web.example/api/organizations");
    let auth = AuthSource::Session { session_key: "k".to_string(), extra_cookies: vec![] };
    assert_eq!(usage_url(&auth, "org-1", base), "https://web.example/api/organizations/org-1/usage");
    assert_eq!(usage_url(&AuthSource::ClaudeCode, "", base), "https://api.anthropic.com/api/oauth/usage");
}

#[test]
fn checks_usage_shape() {
    assert!(check_usage_shape(&obj(vec![("five_hour", obj(vec![]))])).is_ok());
    assert!(check_usage_shape(&obj(vec![("seven_day", Json::Null)])).is_ok());
    assert_eq!(
        other(check_usage_shape(&obj(vec![("error", s("x")), ("five_hour", Json::Null)])).unwrap_err()),
        "API returned an error object"
    );
    assert_eq!(other(check_usage_shape(&obj(vec![])).unwrap_err()), "Unexpected usage response shape");
    assert_eq!(other(check_usage_shape(&Json::Array(vec![])).unwrap_err()), "Unexpected usage response shape");
}

fn org(uuid: &str, caps: &[&str], tier: Option<&str>) -> Json {
    let mut m = vec![
        ("uuid", s(uuid)),
        ("capabilities", Json::Array(caps.iter().map(|c| s(c)).collect())),
    ];
    if let Some(t) = tier {
        m.push(("rate_limit_tier", s(t)));
    }
    obj(m)
}

#[test]
fn picks_the_chat_organization() {
    let orgs = vec![org("api-org", &["api"], None), org("chat-org", &["chat", "claude_max"], None)];
    assert_eq!(pick_org(&orgs), Some(1));
    assert_eq!(pick_org(&vec![org("a", &["api"], None), org("b", &[], None)]), Some(0));
    assert_eq!(pick_org(&vec![]), None);
    assert_eq!(org_id_from_orgs(&Json::Array(orgs.clone_json())), Ok("chat-org".to_string()));
    assert_eq!(org_id_from_orgs(&Json::Array(vec![])), Err("No organizations found".to_string()));
    assert_eq!(org_id_from_orgs(&obj(vec![])), Err("No organizations found".to_string()));
    assert_eq!(
        org_id_from_orgs(&Json::Array(vec![obj(vec![("uuid", Json::Null)])])),
        Err("No organizations found".to_string())
    );
}

trait CloneJson {
    fn clone_json(&self) -> Vec<Json>;
}

fn copy(j: &Json) -> Json {
    match j {
        Json::Null => Json::Null,
        Json::Bool(b) => Json::Bool(*b),
        Json::Number(n) => Json::Number(n.clone()),
        Json::Str(t) => Json::Str(t.clone()),
        Json::Array(a) => Json::Array(a.iter().map(copy).collect()),
        Json::Object(m) => Json::Object(m.iter().map(|(k, v)| (k.clone(), copy(v))).collect()),
    }
}

impl CloneJson for Vec<Json> {
    fn clone_json(&self) -> Vec<Json> {
        self.iter().map(copy).collect()
    }
}

#[test]
fn detects_plans() {
    assert_eq!(detect_plan_from_org(&org("o", &["chat"], Some("default_claude_max_5x"))), Ok("Max (5x)".to_string()));
    assert_eq!(detect_plan_from_org(&org("o", &["chat", "claude_pro"], None)), Ok("Pro".to_string()));
    assert_eq!(detect_plan_from_org(&org("o", &["chat", "claude_max"], Some("unknown"))), Ok("Max".to_string()));
    // Capabilities are joined with commas before the keyword search.
    assert_eq!(detect_plan_from_org(&org("o", &["ma", "x"], None)), Ok("Pro".to_string()));
    let billing = obj(vec![("billing", obj(vec![("plan_type", s("team"))]))]);
    assert_eq!(detect_plan_from_org(&billing), Ok("Team".to_string()));
    let fallback = obj(vec![("billing", obj(vec![("plan", s("enterprise"))]))]);
    assert_eq!(detect_plan_from_org(&fallback), Ok("Enterprise".to_string()));
    // A plan_type that is not a string hides `plan`.
    let hidden = obj(vec![("billing", obj(vec![("plan_type", Json::Null), ("plan", s("team"))]))]);
    assert_eq!(detect_plan_from_org(&hidden), Ok("Pro".to_string()));
    assert_eq!(detect_plan_from_org(&Json::Null), Ok("Pro".to_string()));
    let orgs = Json::Array(vec![org("a", &["api"], Some("free")), org("b", &["chat"], Some("team"))]);
    assert_eq!(plan_from_orgs(&orgs), Ok("Team".to_string()));
    assert_eq!(plan_from_orgs(&Json::Array(vec![])), Err("No organizations".to_string()));
}
