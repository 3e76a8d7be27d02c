use usage_tank::config::{
    default_gauge_mode, default_poll_interval, default_theme, default_threshold,
    locale_from_os_name, menu_interval_seconds, parse_credentials_json, session_org_id, AppConfig,
};
use usage_tank::i18n::{bundled_locale, Strings};
use usage_tank::json::Json;
use usage_tank::tauri_config;

fn s(t: &str) -> Json {
    Json::Str(t.to_string())
}

fn obj(members: Vec<(&str, Json)>) -> Json {
    Json::Object(members.into_iter().map(|(k, v)| (k.to_string(), v)).collect())
}

#[test]
fn tray_defaults() {
    let c = AppConfig::default();
    assert_eq!(c.theme, "cyber");
    assert_eq!(c.gauge_mode, "remaining");
    assert_eq!(c.poll_interval_sec, 180);
    assert_eq!(c.locale, "");
    assert_eq!(c.threshold_5h, 20);
    assert_eq!(c.threshold_7d, 20);
    assert!(!c.auto_start);
    assert_eq!(default_theme(), "cyber");
    assert_eq!(default_gauge_mode(), "remaining");
    assert_eq!(default_poll_interval(), 180);
    assert_eq!(default_threshold(), 20);
}

#[test]
fn shell_defaults_and_updates() {
    let mut c = tauri_config::AppConfig::default();
    assert_eq!(c.version, 1);
    assert_eq!(c.locale, "auto");
    assert_eq!(c.notification_threshold, 80);
    c.update_config("theme", "neon".to_string());
    assert_eq!(c.theme, "neon");
    c.update_config("gauge_mode", "consumed".to_string());
    assert_eq!(c.gauge_mode, "consumed");
    c.update_config("poll_interval_sec", "60".to_string());
    assert_eq!(c.poll_interval_sec, 60);
    c.update_config("poll_interval_sec", "soon".to_string());
    assert_eq!(c.poll_interval_sec, 180);
    c.update_config("locale", "fr".to_string());
    assert_eq!(c.locale, "auto");
}

#[test]
fn resolves_locale() {
    assert_eq!(locale_from_os_name(Some("ja-JP")), "ja");
    assert_eq!(locale_from_os_name(Some("fr")), "fr");
    assert_eq!(locale_from_os_name(Some("es-ES")), "en");
    assert_eq!(locale_from_os_name(Some("")), "en");
    assert_eq!(locale_from_os_name(None), "en");
    let mut c = AppConfig::default();
    assert_eq!(c.effective_locale(Some("de-DE")), "de");
    c.locale = "auto".to_string();
    assert_eq!(c.effective_locale(Some("ko-KR")), "ko");
    c.locale = "fr".to_string();
    assert_eq!(c.effective_locale(Some("ko-KR")), "fr");
}

#[test]
fn applies_dashboard_settings() {
    let mut c = AppConfig::default();
    assert_eq!(c.apply_setting("poll_interval_sec", "300"), None);
    assert_eq!(c.poll_interval_sec, 300);
    c.apply_setting("poll_interval_sec", "-1");
    assert_eq!(c.poll_interval_sec, 180);
    c.apply_setting("threshold_5h", "+15");
    assert_eq!(c.threshold_5h, 15);
    c.apply_setting("threshold_7d", "x");
    assert_eq!(c.threshold_7d, 20);
    assert_eq!(c.apply_setting("auto_start", "true"), Some(true));
    assert!(c.auto_start);
    assert_eq!(c.apply_setting("auto_start", "yes"), Some(false));
    assert!(!c.auto_start);
    assert_eq!(c.apply_setting("theme", "neon"), None);
    assert_eq!(c.theme, "cyber");
}

#[test]
fn reads_session_and_credentials() {
    assert_eq!(session_org_id(&obj(vec![("org_id", s("abc"))])), Some("abc".to_string()));
    assert_eq!(session_org_id(&obj(vec![("org_id", Json::Null)])), None);
    assert_eq!(session_org_id(&Json::Array(vec![])), None);
    let doc = obj(vec![
        ("session_key", s("sk")),
        ("extra_cookies", obj(vec![("a", s("1")), ("n", Json::Number("2".to_string())), ("b", s("3"))])),
    ]);
    let (sk, extras) = parse_credentials_json(&doc).unwrap();
    assert_eq!(sk, "sk");
    assert_eq!(extras, vec![("a".to_string(), "1".to_string()), ("b".to_string(), "3".to_string())]);
    let (_, none) = parse_credentials_json(&obj(vec![("session_key", s("sk"))])).unwrap();
    assert!(none.is_empty());
    assert!(parse_credentials_json(&obj(vec![("extra_cookies", obj(vec![]))])).is_none());
}

#[test]
fn looks_up_strings() {
    let t = Strings::load(Some(&obj(vec![("menu_quit", s("Quit")), ("tray_left", s("left"))])));
    assert_eq!(t.get("menu_quit"), "Quit");
    assert_eq!(t.get("missing_key"), "missing_key");
    let bad = Strings::load(Some(&obj(vec![("menu_quit", s("Quit")), ("n", Json::Bool(true))])));
    assert_eq!(bad.get("menu_quit"), "menu_quit");
    let none = Strings::load(None);
    assert_eq!(none.get("tray_left"), "tray_left");
    assert_eq!(bundled_locale("ja"), "ja");
    assert_eq!(bundled_locale("es"), "en");
}

#[test]
fn later_string_members_win() {
    let t = Strings::load(Some(&obj(vec![("k", s("first")), ("k", s("second"))])));
    assert_eq!(t.get("k"), "second");
}

#[test]
fn menu_intervals() {
    assert_eq!(menu_interval_seconds(0), Some(60));
    assert_eq!(menu_interval_seconds(1), Some(180));
    assert_eq!(menu_interval_seconds(2), Some(300));
    assert_eq!(menu_interval_seconds(3), None);
}
