use usage_tank::api::{json_body, ApiError};
use usage_tank::cc::creds_from_text;
use usage_tank::config::{parse_credentials_text, session_org_id_from_text};
use usage_tank::i18n::Strings;
use usage_tank::json::Json;
use usage_tank::monitor::{dashboard_request, DashboardRequest};
use usage_tank::update::update_from_release_text;

#[test]
fn reads_credential_records_from_text() {
    let (sk, extras) =
        parse_credentials_text(r#"{"session_key":"sk-1","extra_cookies":{"a":"1","n":2}}"#).unwrap();
    assert_eq!(sk, "sk-1");
    assert_eq!(extras, vec![("a".to_string(), "1".to_string())]);
    assert!(parse_credentials_text(r#"{"extra_cookies":{}}"#).is_none());
    assert!(parse_credentials_text("not json").is_none());
}

#[test]
fn reads_session_records_from_text() {
    assert_eq!(session_org_id_from_text(r#"{"org_id":"org-9"}"#), Some("org-9".to_string()));
    assert_eq!(session_org_id_from_text(r#"{"org_id":9}"#), None);
    assert_eq!(session_org_id_from_text("{"), None);
}

#[test]
fn reads_agent_credential_files_from_text() {
    let text = r#"{"claudeAiOauth":{"accessToken":"tok","expiresAt":1700000000000,"subscriptionType":"max"}}"#;
    let (exp, c) = creds_from_text(text).unwrap();
    assert_eq!(exp.as_deref(), Some("1700000000000"));
    assert_eq!(c.access_token, "tok");
    assert_eq!(c.subscription_type.as_deref(), Some("max"));
    assert!(creds_from_text("[]").is_none());
    assert!(creds_from_text("").is_none());
}

#[test]
fn reads_language_files_from_text() {
    let t = Strings::load_text(Some(r#"{"menu_quit":"Beenden","tray_left":"übrig"}"#));
    assert_eq!(t.get("menu_quit"), "Beenden");
    assert_eq!(t.get("tray_left"), "übrig");
    assert_eq!(t.get("other"), "other");
    let bad = Strings::load_text(Some(r#"{"menu_quit":1}"#));
    assert_eq!(bad.get("menu_quit"), "menu_quit");
    assert_eq!(Strings::load_text(Some("oops")).get("menu_quit"), "menu_quit");
    assert_eq!(Strings::load_text(None).get("menu_quit"), "menu_quit");
}

#[test]
fn reads_release_responses_from_text() {
    let page = "https://example.org/releases";
    let u = update_from_release_text(r#"{"tag_name":"v1.5.0","html_url":"https://example.org/r"}"#, "1.4.0", page)
        .expect("newer");
    assert_eq!(u.version, "1.5.0");
    assert_eq!(u.url, "https://example.org/r");
    assert!(update_from_release_text(r#"{"tag_name":"v1.4.0"}"#, "1.4.0", page).is_none());
    assert!(update_from_release_text("<html>", "1.4.0", page).is_none());
}

#[test]
fn reads_response_bodies() {
    match json_body(r#"{"five_hour":{"utilization":12.5}}"#) {
        Ok(Json::Object(m)) => {
            assert_eq!(m.len(), 1);
            assert_eq!(m[0].0, "five_hour");
            match &m[0].1 {
                Json::Object(inner) => assert!(matches!(&inner[0].1, Json::Number(n) if n == "12.5")),
                _ => panic!("an object"),
            }
        }
        _ => panic!("an object"),
    }
    match json_body("nope") {
        Err(ApiError::Other(m)) => assert!(m.starts_with("JSON parse error: ") && m.len() > 18),
        _ => panic!("a parse error"),
    }
}

#[test]
fn reads_dashboard_requests() {
    match dashboard_request(r#"{"type":"setting","key":"threshold_5h","value":"30"}"#) {
        Some(DashboardRequest::Setting { key, value }) => {
            assert_eq!(key, "threshold_5h");
            assert_eq!(value, "30");
        }
        _ => panic!("a setting"),
    }
    assert!(matches!(dashboard_request(r#"{"type":"relogin"}"#), Some(DashboardRequest::Relogin)));
    assert!(matches!(dashboard_request(r#"{"type":"clear"}"#), Some(DashboardRequest::Clear)));
    assert!(dashboard_request(r#"{"type":"setting","key":"k"}"#).is_none());
    assert!(dashboard_request(r#"{"type":"other"}"#).is_none());
    assert!(dashboard_request("x").is_none());
}
