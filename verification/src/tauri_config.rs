//! Settings of the webview shell variant of the program.

use vstd::prelude::*;
use crate::number::{parse_u32, parse_u32_at};
use crate::text::{chars_of, string_is};

verus! {

/// Settings of the webview shell.
pub struct AppConfig {
    pub version: u32,
    pub theme: String,
    pub locale: String,
    pub gauge_mode: String,
    pub poll_interval_sec: u32,
    pub auto_start: bool,
    pub notification_threshold: u32,
}

pub fn default_version() -> (r: u32)
    ensures
        r == 1,
{
    1
}

pub fn default_theme() -> (r: String)
    ensures
        r@ == "cyber"@,
{
    String::from_str("cyber")
}

pub fn default_locale() -> (r: String)
    ensures
        r@ == "auto"@,
{
    String::from_str("auto")
}

pub fn default_gauge_mode() -> (r: String)
    ensures
        r@ == "remaining"@,
{
    String::from_str("remaining")
}

pub fn default_poll_interval() -> (r: u32)
    ensures
        r == 180,
{
    180
}

/// Notify when usage reaches 80%.
pub fn default_threshold() -> (r: u32)
    ensures
        r == 80,
{
    80
}

impl Default for AppConfig {
    fn default() -> (r: Self)
        ensures
            r.version == 1,
            r.theme@ == "cyber"@,
            r.locale@ == "auto"@,
            r.gauge_mode@ == "remaining"@,
            r.poll_interval_sec == 180,
            !r.auto_start,
            r.notification_threshold == 80,
    {
        AppConfig {
            version: default_version(),
            theme: default_theme(),
            locale: default_locale(),
            gauge_mode: default_gauge_mode(),
            poll_interval_sec: default_poll_interval(),
            auto_start: false,
            notification_threshold: default_threshold(),
        }
    }
}

impl AppConfig {
    /// Applies one setting from the front end: `gauge_mode` and `theme` take
    /// the value as it is, `poll_interval_sec` parses it as `u32` (180 when it
    /// does not parse); other keys change nothing.
    pub fn update_config(&mut self, key: &str, value: String)
        ensures
            if key@ == "gauge_mode"@ {
                *final(self) == (AppConfig { gauge_mode: value, ..*old(self) })
            } else if key@ == "theme"@ {
                *final(self) == (AppConfig { theme: value, ..*old(self) })
            } else if key@ == "poll_interval_sec"@ {
                *final(self) == (AppConfig {
                    poll_interval_sec: match parse_u32(value@) {
                        Some(n) => n as u32,
                        None => 180,
                    },
                    ..*old(self)
                })
            } else {
                *final(self) == *old(self)
            },
    {
        if string_is(key, "gauge_mode") {
            self.gauge_mode = value;
        } else if string_is(key, "theme") {
            self.theme = value;
        } else if string_is(key, "poll_interval_sec") {
            let v = chars_of(value.as_str());
            assert(v@.subrange(0, v.len() as int) =~= v@);
            self.poll_interval_sec = match parse_u32_at(&v, 0, v.len()) {
                Some(n) => n,
                None => 180,
            };
        }
    }
}

} // verus!
