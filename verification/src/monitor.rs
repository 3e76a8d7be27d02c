//! Decisions of the tray program's loops: threshold alerts, the poll timer,
//! error tooltips and login detection.

use vstd::prelude::*;
use crate::json::{parse_json, parsed, str_is, Json};
use crate::api::ApiError;
use crate::text::{chars_of, slice_is, string_from_chars, string_is};

verus! {

/// What one usage update does to the threshold alert.
pub struct ThresholdStep {
    /// Show the alert now.
    pub notify: bool,
    /// Whether an alert is standing after this update.
    pub notified: bool,
}

/// One usage update: alert once when the 5-hour or 7-day remaining share
/// crosses its threshold, and re-arm once neither is below it.
pub fn threshold_step(notified: bool, alert_5h: bool, alert_7d: bool) -> (r: ThresholdStep)
    ensures
        r.notify == (!notified && (alert_5h || alert_7d)),
        r.notified == (alert_5h || alert_7d),
{
    let mut now = notified;
    let mut notify = false;
    if !now && (alert_5h || alert_7d) {
        notify = true;
        now = true;
    }
    if !alert_5h && !alert_7d {
        now = false;
    }
    ThresholdStep { notify, notified: now }
}

pub open spec fn step_notify(notified: bool, a5: bool, a7: bool) -> bool {
    !notified && (a5 || a7)
}

pub open spec fn step_state(notified: bool, a5: bool, a7: bool) -> bool {
    a5 || a7
}

/// An alert is shown once per crossing: right after an alert, further
/// updates that still cross a threshold show none.
pub proof fn lemma_alert_once_per_crossing(notified: bool, a5: bool, a7: bool, b5: bool, b7: bool)
    requires
        step_notify(notified, a5, a7),
    ensures
        !step_notify(step_state(notified, a5, a7), b5, b7),
{
}

/// Once both shares are back above their thresholds, the next crossing
/// alerts again.
pub proof fn lemma_alert_rearms(notified: bool, b5: bool, b7: bool)
    requires
        b5 || b7,
    ensures
        step_notify(step_state(notified, false, false), b5, b7),
{
}

/// What the poll loop does at one tick of its one-second timer.
pub enum PollAction {
    /// A newer login superseded this loop: end it.
    Stop,
    /// The interval has elapsed: fetch usage now.
    Fetch,
    /// Sleep a second more.
    Wait,
}

/// The poll loop's decision after `elapsed` seconds of an `interval`-second
/// wait, for the loop started at login `my_generation` while `generation` is
/// the newest: stop when superseded, else fetch once the interval is over.
pub open spec fn spec_poll_tick(generation: usize, my_generation: usize, elapsed: u32, interval: u32) -> PollAction {
    if generation != my_generation {
        PollAction::Stop
    } else if elapsed >= interval {
        PollAction::Fetch
    } else {
        PollAction::Wait
    }
}

pub fn poll_tick(generation: usize, my_generation: usize, elapsed: u32, interval: u32) -> (r:
    PollAction)
    ensures
        r == spec_poll_tick(generation, my_generation, elapsed, interval),
{
    if generation != my_generation {
        PollAction::Stop
    } else if elapsed >= interval {
        PollAction::Fetch
    } else {
        PollAction::Wait
    }
}

/// The tooltip for an error: the title, then `Error: ` and at most the
/// first 50 characters of the message.
pub open spec fn spec_error_tooltip(title: Seq<char>, e: Seq<char>) -> Seq<char> {
    title + "\nError: "@ + e.take(if e.len() < 50 {
        e.len() as int
    } else {
        50
    })
}

pub fn error_tooltip(title: &str, e: &str) -> (r: String)
    ensures
        r@ == spec_error_tooltip(title@, e@),
{
    let v = chars_of(e);
    let n = if v.len() < 50 {
        v.len()
    } else {
        50
    };
    let short = string_from_chars(&v, 0, n);
    let mut s = String::from_str(title);
    s.append("\nError: ");
    s.append(short.as_str());
    assert(v@.subrange(0, n as int) =~= e@.take(n as int));
    s
}

/// How an error is shown.
pub enum ErrorKind {
    /// HTTP 401: the login or token expired.
    Auth,
    /// Another client error (4xx, rate limiting included), which passes on
    /// its own.
    Client,
    /// The request failed before any status arrived: the service is out of
    /// reach.
    Network,
    /// Anything else.
    Other,
}

/// The category of an error: [`ErrorKind`]'s variants in that order of
/// precedence; a network failure is an error made by `request_failed`.
pub open spec fn spec_error_kind(e: ApiError) -> ErrorKind {
    if e.spec_is_auth() {
        ErrorKind::Auth
    } else if e.spec_is_client_error() {
        ErrorKind::Client
    } else {
        match e {
            ApiError::Other(m) => if m@.len() >= 16 && m@.subrange(0, 16) == "Request failed: "@ {
                ErrorKind::Network
            } else {
                ErrorKind::Other
            },
            _ => ErrorKind::Other,
        }
    }
}

pub fn error_kind(e: &ApiError) -> (r: ErrorKind)
    ensures
        r == spec_error_kind(*e),
{
    if e.is_auth() {
        ErrorKind::Auth
    } else if e.is_client_error() {
        ErrorKind::Client
    } else {
        match e {
            ApiError::Other(m) => {
                let v = chars_of(m.as_str());
                if v.len() >= 16 && slice_is(&v, 0, 16, "Request failed: ") {
                    ErrorKind::Network
                } else {
                    ErrorKind::Other
                }
            },
            _ => ErrorKind::Other,
        }
    }
}

/// The wait before the next poll after an outcome: twice the interval
/// (capped at `u32::MAX`) after rate limiting, else the interval. An expired
/// token is not waited out longer, since it is renewed out of band.
pub open spec fn spec_poll_wait(interval: u32, rate_limited: bool) -> u32 {
    if !rate_limited {
        interval
    } else if interval > u32::MAX / 2 {
        u32::MAX
    } else {
        (2 * interval) as u32
    }
}

/// The wait before the next poll, given the last poll's error if it failed.
pub fn poll_wait(interval: u32, last: Option<&ApiError>) -> (r: u32)
    ensures
        r == spec_poll_wait(
            interval,
            match last {
                Some(e) => *e is RateLimited,
                None => false,
            },
        ),
{
    match last {
        Some(ApiError::RateLimited) => if interval > u32::MAX / 2 {
            u32::MAX
        } else {
            2 * interval
        },
        _ => interval,
    }
}

/// What the tray program's main loop keeps between messages.
pub struct LoopState {
    /// The plan shown in tooltips and notifications.
    pub plan: String,
    /// Whether a usage reading has arrived since start.
    pub has_data: bool,
    /// Whether a threshold alert is standing.
    pub notified: bool,
    /// The generation of the newest poll loop.
    pub generation: usize,
    /// Whether the current login is a web session (not the agent's token).
    pub session_auth: bool,
    /// Whether the user was already asked to log in again since the last
    /// login or successful reading.
    pub relogin_prompted: bool,
}

/// A message to the main loop. Usage updates arrive with their alert test
/// already made (whether the 5-hour and 7-day remaining shares are below
/// their thresholds); errors arrive with their category.
pub enum LoopEvent {
    LoginSuccess { org_id: String, plan: String, session: bool },
    UsageUpdate { alert_5h: bool, alert_7d: bool },
    Error { message: String, kind: ErrorKind },
    TrayClicked,
}

/// What the main loop does for one message.
pub struct LoopActions {
    /// Record this organization id as the saved session.
    pub save_session: Option<String>,
    /// Start a poll loop of this generation.
    pub start_poll: Option<usize>,
    /// Redraw the tray icon and tooltip from the new reading.
    pub refresh_tray: bool,
    /// Show the threshold alert.
    pub notify: bool,
    /// Set the tray tooltip to this error text.
    pub error_tooltip: Option<String>,
    /// Show the offline icon.
    pub offline_icon: bool,
    /// Tell the user the session expired and open the login window.
    pub relogin_prompt: bool,
    /// Show or hide the dashboard.
    pub toggle_popup: bool,
    /// Hand the latest reading to the dashboard.
    pub push_data: bool,
}

/// The generation after `g`, wrapping at the top of `usize`.
pub open spec fn next_generation(g: usize) -> usize {
    if g == usize::MAX {
        0
    } else {
        (g + 1) as usize
    }
}

/// The tooltip for an error: client errors (an expired login or token, rate
/// limiting) pass on their own, so they show `wait_text` under the title;
/// others show the error itself.
pub open spec fn spec_error_text(title: Seq<char>, message: Seq<char>, kind: ErrorKind, wait_text: Seq<char>) -> Seq<char> {
    match kind {
        ErrorKind::Auth => title + "\n"@ + wait_text,
        ErrorKind::Client => title + "\n"@ + wait_text,
        _ => spec_error_tooltip(title, message),
    }
}

/// An expired web session asks for a new login, once until the next login
/// or successful reading; the agent's token renews itself.
pub open spec fn prompts_relogin(session_auth: bool, prompted: bool, kind: ErrorKind) -> bool {
    kind is Auth && session_auth && !prompted
}

/// The main loop's handling of one message; `title` heads tooltips and
/// `wait_text` reassures while a client error passes.
pub fn main_step(state: &mut LoopState, event: LoopEvent, title: &str, wait_text: &str) -> (r: LoopActions)
    ensures
        match event {
            LoopEvent::LoginSuccess { org_id, plan, session } => {
                &&& final(state).plan@ == plan@
                &&& final(state).has_data
                &&& !final(state).notified
                &&& final(state).generation == next_generation(old(state).generation)
                &&& final(state).session_auth == session
                &&& !final(state).relogin_prompted
                &&& r.start_poll == Some(final(state).generation)
                &&& match r.save_session {
                    Some(o) => org_id@.len() > 0 && o@ == org_id@,
                    None => org_id@.len() == 0,
                }
                &&& r.refresh_tray && !r.notify && r.error_tooltip is None
                &&& !r.offline_icon && !r.relogin_prompt
                &&& !r.toggle_popup && !r.push_data
            },
            LoopEvent::UsageUpdate { alert_5h, alert_7d } => {
                &&& final(state).plan@ == old(state).plan@
                &&& final(state).has_data
                &&& final(state).notified == step_state(old(state).notified, alert_5h, alert_7d)
                &&& final(state).generation == old(state).generation
                &&& final(state).session_auth == old(state).session_auth
                &&& !final(state).relogin_prompted
                &&& r.notify == step_notify(old(state).notified, alert_5h, alert_7d)
                &&& r.save_session is None && r.start_poll is None
                &&& r.refresh_tray && r.error_tooltip is None
                &&& !r.offline_icon && !r.relogin_prompt
                &&& !r.toggle_popup && r.push_data
            },
            LoopEvent::Error { message, kind } => {
                &&& final(state).plan@ == old(state).plan@
                &&& final(state).has_data == old(state).has_data
                &&& final(state).notified == old(state).notified
                &&& final(state).generation == old(state).generation
                &&& final(state).session_auth == old(state).session_auth
                &&& final(state).relogin_prompted == (old(state).relogin_prompted || prompts_relogin(
                    old(state).session_auth,
                    old(state).relogin_prompted,
                    kind,
                ))
                &&& r.error_tooltip matches Some(t) && t@ == spec_error_text(
                    title@,
                    message@,
                    kind,
                    wait_text@,
                )
                &&& r.offline_icon == (kind is Network)
                &&& r.relogin_prompt == prompts_relogin(
                    old(state).session_auth,
                    old(state).relogin_prompted,
                    kind,
                )
                &&& r.save_session is None && r.start_poll is None
                &&& !r.refresh_tray && !r.notify && !r.toggle_popup && !r.push_data
            },
            LoopEvent::TrayClicked => {
                &&& *final(state) == *old(state)
                &&& r.toggle_popup && r.push_data == old(state).has_data
                &&& r.save_session is None && r.start_poll is None && r.error_tooltip is None
                &&& !r.refresh_tray && !r.notify && !r.offline_icon && !r.relogin_prompt
            },
        },
{
    let mut r = LoopActions {
        save_session: None,
        start_poll: None,
        refresh_tray: false,
        notify: false,
        error_tooltip: None,
        offline_icon: false,
        relogin_prompt: false,
        toggle_popup: false,
        push_data: false,
    };
    match event {
        LoopEvent::LoginSuccess { org_id, plan, session } => {
            state.plan = plan;
            state.has_data = true;
            state.notified = false;
            state.session_auth = session;
            state.relogin_prompted = false;
            state.generation = if state.generation == usize::MAX {
                0
            } else {
                state.generation + 1
            };
            r.start_poll = Some(state.generation);
            if org_id.as_str().is_empty() {
                r.save_session = None;
            } else {
                r.save_session = Some(org_id);
            }
            r.refresh_tray = true;
        },
        LoopEvent::UsageUpdate { alert_5h, alert_7d } => {
            let step = threshold_step(state.notified, alert_5h, alert_7d);
            state.notified = step.notified;
            state.has_data = true;
            state.relogin_prompted = false;
            r.notify = step.notify;
            r.refresh_tray = true;
            r.push_data = true;
        },
        LoopEvent::Error { message, kind } => {
            let waits = match kind {
                ErrorKind::Auth => true,
                ErrorKind::Client => true,
                _ => false,
            };
            if waits {
                let mut t = String::from_str(title);
                t.append("\n");
                t.append(wait_text);
                r.error_tooltip = Some(t);
            } else {
                r.error_tooltip = Some(error_tooltip(title, message.as_str()));
            }
            r.offline_icon = match kind {
                ErrorKind::Network => true,
                _ => false,
            };
            let prompt = match kind {
                ErrorKind::Auth => state.session_auth && !state.relogin_prompted,
                _ => false,
            };
            r.relogin_prompt = prompt;
            if prompt {
                state.relogin_prompted = true;
            }
        },
        LoopEvent::TrayClicked => {
            r.toggle_popup = true;
            r.push_data = state.has_data;
        },
    }
    r
}

/// An expired session asks for a new login once: right after the prompt,
/// further expiry errors ask no more.
pub proof fn lemma_relogin_prompt_once(session_auth: bool, prompted: bool, k1: ErrorKind, k2: ErrorKind)
    requires
        prompts_relogin(session_auth, prompted, k1),
    ensures
        !prompts_relogin(session_auth, prompted || prompts_relogin(session_auth, prompted, k1), k2),
{
}

/// Rate limiting lengthens the wait before the next poll, while an expired
/// token (or any other outcome) keeps the interval.
pub proof fn lemma_backoff_only_when_throttled(interval: u32)
    ensures
        spec_poll_wait(interval, true) >= interval,
        interval > 0 && interval <= u32::MAX / 2 ==> spec_poll_wait(interval, true) > interval,
        spec_poll_wait(interval, false) == interval,
{
}

/// A new login never leaves the loop it supersedes polling: once the
/// generation has moved on from `g`, the loop of generation `g` stops at its
/// next tick, however long it has waited.
pub proof fn lemma_login_supersedes(g: usize, elapsed: u32, interval: u32)
    ensures
        spec_poll_tick(next_generation(g), g, elapsed, interval) is Stop,
{
}

/// The value of the first cookie named `sessionKey`.
pub open spec fn spec_session_cookie(cookies: Seq<(String, String)>) -> Option<Seq<char>>
    decreases cookies.len(),
{
    if cookies.len() == 0 {
        None
    } else if cookies[0].0@ == "sessionKey"@ {
        Some(cookies[0].1@)
    } else {
        spec_session_cookie(cookies.drop_first())
    }
}

/// Finds the login's session cookie among a page's `(name, value)` cookies.
pub fn find_session_cookie(cookies: &Vec<(String, String)>) -> (r: Option<String>)
    ensures
        match r {
            Some(v) => spec_session_cookie(cookies@) == Some(v@),
            None => spec_session_cookie(cookies@) is None,
        },
{
    let k = chars_of("sessionKey");
    let n = cookies.len();
    let mut i: usize = 0;
    assert(cookies@.skip(0) =~= cookies@);
    while i < n
        invariant
            n == cookies@.len(),
            k@ == "sessionKey"@,
            i <= n,
            spec_session_cookie(cookies@) == spec_session_cookie(cookies@.skip(i as int)),
        decreases n - i,
    {
        let ghost rest = cookies@.skip(i as int);
        assert(rest.drop_first() =~= cookies@.skip(i + 1));
        assert(rest[0] == cookies@[i as int]);
        if str_is(&cookies[i].0, &k) {
            return Some(cookies[i].1.clone());
        }
        i = i + 1;
    }
    None
}


/// What the dashboard asks of the program.
pub enum DashboardRequest {
    /// Change one setting.
    Setting { key: String, value: String },
    /// Log in again.
    Relogin,
    /// Forget the saved login and quit.
    Clear,
}

/// Whether a dashboard message's document makes the request `q`:
/// `{"type": "setting", "key": .., "value": ..}`, `{"type": "relogin"}` or
/// `{"type": "clear"}`.
pub open spec fn makes_request(v: Json, q: DashboardRequest) -> bool {
    match q {
        DashboardRequest::Setting { key, value } => {
            &&& v.spec_get_str("type"@) == Some("setting"@)
            &&& v.spec_get_str("key"@) == Some(key@)
            &&& v.spec_get_str("value"@) == Some(value@)
        },
        DashboardRequest::Relogin => v.spec_get_str("type"@) == Some("relogin"@),
        DashboardRequest::Clear => v.spec_get_str("type"@) == Some("clear"@),
    }
}

/// Whether a document makes any request.
pub open spec fn is_request(v: Json) -> bool {
    ||| (v.spec_get_str("type"@) == Some("setting"@) && v.spec_get_str("key"@) is Some
        && v.spec_get_str("value"@) is Some)
    ||| v.spec_get_str("type"@) == Some("relogin"@)
    ||| v.spec_get_str("type"@) == Some("clear"@)
}

/// The request in a dashboard message's JSON text.
pub fn dashboard_request(text: &str) -> (r: Option<DashboardRequest>)
    ensures
        match r {
            Some(q) => parsed(text@) matches Some(v) && makes_request(v, q),
            None => parsed(text@) matches Some(v) ==> !is_request(v),
        },
{
    proof {
        reveal_strlit("setting");
        reveal_strlit("relogin");
        reveal_strlit("clear");
        assert("setting"@[0] != "relogin"@[0]);
        assert("setting"@.len() != "clear"@.len());
        assert("relogin"@.len() != "clear"@.len());
    }
    let v = match parse_json(text) {
        Ok(v) => v,
        Err(_) => return None,
    };
    let t = match v.get_str("type") {
        Some(t) => t,
        None => return None,
    };
    if string_is(t.as_str(), "setting") {
        let k = match v.get_str("key") {
            Some(k) => k.clone(),
            None => return None,
        };
        let x = match v.get_str("value") {
            Some(x) => x.clone(),
            None => return None,
        };
        let q = DashboardRequest::Setting { key: k, value: x };
        assert(makes_request(v, q));
        Some(q)
    } else if string_is(t.as_str(), "relogin") {
        Some(DashboardRequest::Relogin)
    } else if string_is(t.as_str(), "clear") {
        Some(DashboardRequest::Clear)
    } else {
        None
    }
}

} // verus!
