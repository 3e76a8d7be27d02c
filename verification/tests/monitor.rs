use usage_tank::api::{error_from_status, json_parse_failed, request_failed, ApiError};
use usage_tank::monitor::{
    error_kind, main_step, poll_tick, poll_wait, ErrorKind, LoopEvent, LoopState, PollAction,
};

fn fresh() -> LoopState {
    LoopState {
        plan: "Pro".to_string(),
        has_data: false,
        notified: false,
        generation: 0,
        session_auth: false,
        relogin_prompted: false,
    }
}

#[test]
fn login_starts_a_new_poll_generation() {
    let mut st = fresh();
    st.notified = true;
    let a = main_step(&mut st, LoopEvent::LoginSuccess { org_id: "org-1".into(), plan: "Max".into(), session: true }, "Tank", "wait");
    assert_eq!(a.save_session, Some("org-1".to_string()));
    assert_eq!(a.start_poll, Some(1));
    assert!(a.refresh_tray && !a.notify && !a.toggle_popup && !a.push_data);
    assert_eq!(a.error_tooltip, None);
    assert_eq!(st.plan, "Max");
    assert!(st.has_data && !st.notified);
    assert_eq!(st.generation, 1);
    // The loop of generation 0 stops at its next tick.
    assert!(matches!(poll_tick(st.generation, 0, 0, 180), PollAction::Stop));
}

#[test]
fn agent_login_saves_no_session() {
    let mut st = fresh();
    st.generation = usize::MAX;
    let a = main_step(&mut st, LoopEvent::LoginSuccess { org_id: String::new(), plan: "Pro".into(), session: false }, "Tank", "wait");
    assert_eq!(a.save_session, None);
    assert_eq!(a.start_poll, Some(0));
    assert_eq!(st.generation, 0);
}

#[test]
fn usage_updates_alert_once() {
    let mut st = fresh();
    let a = main_step(&mut st, LoopEvent::UsageUpdate { alert_5h: true, alert_7d: false }, "Tank", "wait");
    assert!(a.notify && a.refresh_tray && a.push_data);
    assert!(st.notified && st.has_data);
    let b = main_step(&mut st, LoopEvent::UsageUpdate { alert_5h: true, alert_7d: true }, "Tank", "wait");
    assert!(!b.notify);
    let c = main_step(&mut st, LoopEvent::UsageUpdate { alert_5h: false, alert_7d: false }, "Tank", "wait");
    assert!(!c.notify && !st.notified);
    let d = main_step(&mut st, LoopEvent::UsageUpdate { alert_5h: false, alert_7d: true }, "Tank", "wait");
    assert!(d.notify);
    assert_eq!(st.generation, 0);
    assert_eq!(st.plan, "Pro");
}

#[test]
fn errors_set_the_tooltip_only() {
    let mut st = fresh();
    let a = main_step(&mut st, LoopEvent::Error { message: "HTTP 500".into(), kind: ErrorKind::Other }, "Tank", "wait");
    assert_eq!(a.error_tooltip, Some("Tank\nError: HTTP 500".to_string()));
    assert!(!a.refresh_tray && !a.notify && !a.toggle_popup && !a.push_data);
    assert_eq!(a.save_session, None);
    assert_eq!(a.start_poll, None);
    assert!(!st.has_data);
}

#[test]
fn clicks_toggle_the_dashboard() {
    let mut st = fresh();
    let a = main_step(&mut st, LoopEvent::TrayClicked, "Tank", "wait");
    assert!(a.toggle_popup && !a.push_data);
    main_step(&mut st, LoopEvent::UsageUpdate { alert_5h: false, alert_7d: false }, "Tank", "wait");
    let b = main_step(&mut st, LoopEvent::TrayClicked, "Tank", "wait");
    assert!(b.toggle_popup && b.push_data);
}

#[test]
fn classifies_errors_for_display() {
    assert!(matches!(error_kind(&error_from_status(401)), ErrorKind::Auth));
    assert!(matches!(error_kind(&error_from_status(429)), ErrorKind::Client));
    assert!(matches!(error_kind(&error_from_status(403)), ErrorKind::Client));
    assert!(matches!(error_kind(&error_from_status(503)), ErrorKind::Other));
    assert!(matches!(error_kind(&request_failed("dns")), ErrorKind::Network));
    assert!(matches!(error_kind(&json_parse_failed("eof")), ErrorKind::Other));
}

#[test]
fn client_errors_reassure_and_network_errors_go_offline() {
    let mut st = fresh();
    let a = main_step(&mut st, LoopEvent::Error { message: "Rate limited (429)".into(), kind: ErrorKind::Client }, "Tank", "wait");
    assert_eq!(a.error_tooltip, Some("Tank\nwait".to_string()));
    assert!(!a.offline_icon && !a.relogin_prompt);
    let b = main_step(&mut st, LoopEvent::Error { message: "Request failed: dns".into(), kind: ErrorKind::Network }, "Tank", "wait");
    assert_eq!(b.error_tooltip, Some("Tank\nError: Request failed: dns".to_string()));
    assert!(b.offline_icon && !b.relogin_prompt);
}

#[test]
fn expired_session_prompts_once() {
    let mut st = fresh();
    main_step(&mut st, LoopEvent::LoginSuccess { org_id: "o".into(), plan: "Pro".into(), session: true }, "Tank", "wait");
    let e = || LoopEvent::Error { message: "HTTP 401".into(), kind: ErrorKind::Auth };
    let a = main_step(&mut st, e(), "Tank", "wait");
    assert!(a.relogin_prompt);
    assert_eq!(a.error_tooltip, Some("Tank\nwait".to_string()));
    let b = main_step(&mut st, e(), "Tank", "wait");
    assert!(!b.relogin_prompt);
    main_step(&mut st, LoopEvent::UsageUpdate { alert_5h: false, alert_7d: false }, "Tank", "wait");
    assert!(main_step(&mut st, e(), "Tank", "wait").relogin_prompt);
    // The agent's token renews itself: no prompt.
    let mut agent = fresh();
    main_step(&mut agent, LoopEvent::LoginSuccess { org_id: String::new(), plan: "Pro".into(), session: false }, "Tank", "wait");
    assert!(!main_step(&mut agent, e(), "Tank", "wait").relogin_prompt);
}

#[test]
fn backs_off_after_rate_limiting_only() {
    assert_eq!(poll_wait(180, None), 180);
    assert_eq!(poll_wait(180, Some(&ApiError::RateLimited)), 360);
    assert_eq!(poll_wait(180, Some(&ApiError::Http(401))), 180);
    assert_eq!(poll_wait(180, Some(&ApiError::Http(500))), 180);
    assert_eq!(poll_wait(u32::MAX, Some(&ApiError::RateLimited)), u32::MAX);
    assert!(matches!(poll_tick(1, 1, 180, poll_wait(180, Some(&ApiError::RateLimited))), PollAction::Wait));
}
