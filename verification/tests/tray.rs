use usage_tank::cc::{creds_from_json, local_suffices, pick_credentials, CredentialChoice};
use usage_tank::json::Json;
use usage_tank::monitor::{error_tooltip, find_session_cookie, poll_tick, threshold_step, PollAction};
use usage_tank::notify::fill_wide;
use usage_tank::tray::{draw_bar, draw_update_dot, generate_icon, icon_base};
use usage_tank::win_util::{registry_text_units, version_present, wsl_home_root};

fn pixel(rgba: &[u8], x: usize, y: usize) -> [u8; 4] {
    let i = (y * 32 + x) * 4;
    [rgba[i], rgba[i + 1], rgba[i + 2], rgba[i + 3]]
}

#[test]
fn empty_icon_has_a_border() {
    let b = icon_base();
    assert_eq!(b.len(), 4096);
    assert_eq!(pixel(&b, 0, 0), [0x00, 0xFF, 0xCC, 0x40]);
    assert_eq!(pixel(&b, 31, 17), [0x00, 0xFF, 0xCC, 0x40]);
    assert_eq!(pixel(&b, 5, 5), [0x0A, 0x0A, 0x0F, 0xFF]);
}

#[test]
fn gauges_fill_from_the_bottom() {
    let cyan = [0x00, 0xFF, 0xCC, 0xFF];
    let mut b = icon_base();
    draw_bar(&mut b, 3, 13, cyan);
    // Frame.
    assert_eq!(pixel(&b, 3, 10), [0x00, 0xFF, 0xCC, 0x60]);
    assert_eq!(pixel(&b, 8, 3), [0x00, 0xFF, 0xCC, 0x60]);
    // Filled rows start at 29 - 13 = 16; the middle columns glow.
    assert_eq!(pixel(&b, 4, 16), cyan);
    assert_eq!(pixel(&b, 7, 20), [0x1E, 0xFF, 0xEA, 0xFF]);
    // Empty part, with a scan line on rows divisible by 3.
    assert_eq!(pixel(&b, 4, 14), [0x15, 0x15, 0x20, 0xFF]);
    assert_eq!(pixel(&b, 4, 15), [0x10, 0x10, 0x18, 0xFF]);
    assert_eq!(pixel(&b, 4, 12), [0x10, 0x10, 0x18, 0xFF]);
    // Outside the gauge nothing changes.
    assert_eq!(pixel(&b, 16, 20), [0x0A, 0x0A, 0x0F, 0xFF]);
    let full = generate_icon(100, cyan, 0, cyan, false);
    assert_eq!(pixel(&full, 4, 4), cyan);
    assert_eq!(pixel(&full, 18, 26), [0x15, 0x15, 0x20, 0xFF]);
}

#[test]
fn badge_is_a_ringed_dot() {
    let mut b = icon_base();
    draw_update_dot(&mut b);
    assert_eq!(pixel(&b, 25, 6), [0xFF, 0x33, 0x55, 0xFF]);
    assert_eq!(pixel(&b, 29, 8), [0xFF, 0x33, 0x55, 0xFF]);
    assert_eq!(pixel(&b, 30, 6), [0x0A, 0x0A, 0x0F, 0xFF]);
    assert_eq!(pixel(&b, 25, 13), [0x0A, 0x0A, 0x0F, 0xFF]);
    assert_eq!(pixel(&b, 0, 0), [0x00, 0xFF, 0xCC, 0x40]);
    let mut twice = b.clone();
    draw_update_dot(&mut twice);
    assert_eq!(twice, b);
    let g = generate_icon(26, [1, 2, 3, 4], 26, [5, 6, 7, 8], true);
    assert_eq!(g, b_with_bars_and_dot());
}

fn b_with_bars_and_dot() -> Vec<u8> {
    let mut b = icon_base();
    draw_bar(&mut b, 17, 26, [5, 6, 7, 8]);
    draw_bar(&mut b, 3, 26, [1, 2, 3, 4]);
    draw_update_dot(&mut b);
    b
}

#[test]
fn alerts_once_per_crossing() {
    let s1 = threshold_step(false, true, false);
    assert!(s1.notify && s1.notified);
    let s2 = threshold_step(s1.notified, true, true);
    assert!(!s2.notify && s2.notified);
    let s3 = threshold_step(s2.notified, false, false);
    assert!(!s3.notify && !s3.notified);
    let s4 = threshold_step(s3.notified, false, true);
    assert!(s4.notify);
}

#[test]
fn poll_timer() {
    assert!(matches!(poll_tick(2, 1, 0, 180), PollAction::Stop));
    assert!(matches!(poll_tick(1, 1, 180, 180), PollAction::Fetch));
    assert!(matches!(poll_tick(1, 1, 179, 180), PollAction::Wait));
}

#[test]
fn error_tooltip_truncates_by_character() {
    assert_eq!(error_tooltip("Tank", "boom"), "Tank\nError: boom");
    let long = "\u{e9}".repeat(60);
    let t = error_tooltip("Tank", &long);
    assert_eq!(t, format!("Tank\nError: {}", "\u{e9}".repeat(50)));
}

#[test]
fn finds_the_session_cookie() {
    let c = vec![("a".to_string(), "1".to_string()), ("sessionKey".to_string(), "sk".to_string())];
    assert_eq!(find_session_cookie(&c), Some("sk".to_string()));
    assert_eq!(find_session_cookie(&vec![]), None);
}

#[test]
fn fills_wide_buffers() {
    let mut d = vec![9u16; 4];
    fill_wide(&mut d, &vec![1, 2]);
    assert_eq!(d, vec![1, 2, 0, 9]);
    let mut d = vec![9u16; 3];
    fill_wide(&mut d, &vec![1, 2, 3, 4]);
    assert_eq!(d, vec![1, 2, 0]);
    let mut d = vec![9u16; 1];
    fill_wide(&mut d, &vec![1]);
    assert_eq!(d, vec![0]);
}

#[test]
fn reads_registry_values() {
    assert_eq!(registry_text_units(0), None);
    assert_eq!(registry_text_units(2), Some(0));
    assert_eq!(registry_text_units(14), Some(6));
    assert!(version_present("120.0.1"));
    assert!(!version_present("0.0.0.0"));
    assert!(!version_present(""));
    assert_eq!(wsl_home_root("Ubuntu"), "\\\\wsl.localhost\\Ubuntu\\home");
}

fn obj(members: Vec<(&str, Json)>) -> Json {
    Json::Object(members.into_iter().map(|(k, v)| (k.to_string(), v)).collect())
}

#[test]
fn reads_agent_credentials() {
    let doc = obj(vec![(
        "claudeAiOauth",
        obj(vec![
            ("accessToken", Json::Str("tok".to_string())),
            ("expiresAt", Json::Number("1700000000000".to_string())),
            ("rateLimitTier", Json::Str("default_claude_max_5x".to_string())),
        ]),
    )]);
    let (exp, c) = creds_from_json(&doc).unwrap();
    assert_eq!(exp.as_deref(), Some("1700000000000"));
    assert_eq!(c.access_token, "tok");
    assert_eq!(c.rate_limit_tier.as_deref(), Some("default_claude_max_5x"));
    assert_eq!(c.subscription_type, None);
    let empty = obj(vec![("claudeAiOauth", obj(vec![("accessToken", Json::Str(String::new()))]))]);
    assert!(creds_from_json(&empty).is_none());
    assert!(creds_from_json(&obj(vec![])).is_none());
}

#[test]
fn picks_the_freshest_credentials() {
    assert!(matches!(pick_credentials(Some(100), 50, &vec![500]), CredentialChoice::Local));
    assert!(matches!(pick_credentials(Some(10), 50, &vec![5, 30, 30]), CredentialChoice::Candidate(1)));
    assert!(matches!(pick_credentials(Some(40), 50, &vec![5, 30]), CredentialChoice::Local));
    assert!(matches!(pick_credentials(None, 50, &vec![]), CredentialChoice::Nothing));
    assert!(matches!(pick_credentials(None, 50, &vec![1]), CredentialChoice::Candidate(0)));
}


#[test]
fn live_local_copy_needs_no_probe() {
    assert!(local_suffices(Some(2000), 1000));
    assert!(!local_suffices(Some(1000), 1000));
    assert!(!local_suffices(None, 1000));
}

#[test]
fn drawing_leaves_a_longer_buffer_tail_alone() {
    let mut b = icon_base();
    b.extend(vec![7u8; 100]);
    draw_bar(&mut b, 3, 10, [1, 2, 3, 4]);
    draw_update_dot(&mut b);
    assert_eq!(b.len(), 4196);
    assert!(b[4096..].iter().all(|&x| x == 7));
    assert_eq!(pixel(&b, 25, 6), [0xFF, 0x33, 0x55, 0xFF]);
    assert_eq!(pixel(&b, 25, 11), [0x0A, 0x0A, 0x0F, 0xFF]);
    let mut exact = icon_base();
    draw_bar(&mut exact, 3, 10, [1, 2, 3, 4]);
    draw_update_dot(&mut exact);
    assert_eq!(&b[..4096], &exact[..]);
}
