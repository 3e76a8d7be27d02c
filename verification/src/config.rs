//! Settings of the tray program, the session and credential records it
//! keeps, and the display language.

use vstd::prelude::*;
use crate::json::{parse_json, parsed, Json};
use crate::number::parse_u32;
use crate::number::parse_u32_at;
use crate::text::{chars_of, find_either, leading_count, neither_char, slice_is, string_from_chars, string_is};

verus! {

/// Settings of the tray program.
pub struct AppConfig {
    pub theme: String,
    pub gauge_mode: String,
    pub poll_interval_sec: u32,
    pub locale: String,
    pub threshold_5h: u32,
    pub threshold_7d: u32,
    pub auto_start: bool,
}

pub fn default_theme() -> (r: String)
    ensures
        r@ == "cyber"@,
{
    String::from_str("cyber")
}

pub fn default_gauge_mode() -> (r: String)
    ensures
        r@ == "remaining"@,
{
    String::from_str("remaining")
}

pub fn default_poll_interval() -> (r: u32)
    ensures
        r == 180,
{
    180
}

/// Alert when the remaining share drops below 20%.
pub fn default_threshold() -> (r: u32)
    ensures
        r == 20,
{
    20
}

impl Default for AppConfig {
    fn default() -> (r: Self)
        ensures
            r.theme@ == "cyber"@,
            r.gauge_mode@ == "remaining"@,
            r.poll_interval_sec == 180,
            r.locale@ == Seq::<char>::empty(),
            r.threshold_5h == 20,
            r.threshold_7d == 20,
            !r.auto_start,
    {
        AppConfig {
            theme: default_theme(),
            gauge_mode: default_gauge_mode(),
            poll_interval_sec: default_poll_interval(),
            locale: String::new(),
            threshold_5h: default_threshold(),
            threshold_7d: default_threshold(),
            auto_start: false,
        }
    }
}

/// The supported language of an OS locale name such as `"ja-JP"`: the part
/// before the first `-` when it is `ja`, `de`, `ko` or `fr`, else `en` (also
/// when there is no name).
pub open spec fn spec_locale_from_os(name: Option<Seq<char>>) -> Seq<char> {
    match name {
        None => "en"@,
        Some(s) => {
            let lang = s.take(leading_count(s, neither_char('-', '-')) as int);
            if lang == "ja"@ || lang == "de"@ || lang == "ko"@ || lang == "fr"@ {
                lang
            } else {
                "en"@
            }
        },
    }
}

pub fn locale_from_os_name(name: Option<&str>) -> (r: String)
    ensures
        r@ == spec_locale_from_os(
            match name {
                Some(s) => Some(s@),
                None => None,
            },
        ),
{
    match name {
        None => String::from_str("en"),
        Some(s) => {
            let v = chars_of(s);
            let e = find_either(&v, 0, v.len(), '-', '-');
            assert(v@.subrange(0, v.len() as int) =~= v@);
            assert(v@.subrange(0, e as int) =~= s@.take(leading_count(s@, neither_char('-', '-')) as int));
            if slice_is(&v, 0, e, "ja") || slice_is(&v, 0, e, "de") || slice_is(&v, 0, e, "ko")
                || slice_is(&v, 0, e, "fr") {
                string_from_chars(&v, 0, e)
            } else {
                String::from_str("en")
            }
        },
    }
}

impl AppConfig {
    /// The language to show: the configured one, or the OS's when it is
    /// empty or `"auto"`.
    pub open spec fn spec_effective_locale(&self, os: Option<Seq<char>>) -> Seq<char> {
        if self.locale@.len() == 0 || self.locale@ == "auto"@ {
            spec_locale_from_os(os)
        } else {
            self.locale@
        }
    }

    /// Resolves the language; `os_locale` is the OS's user locale name.
    pub fn effective_locale(&self, os_locale: Option<&str>) -> (r: String)
        ensures
            r@ == self.spec_effective_locale(
                match os_locale {
                    Some(s) => Some(s@),
                    None => None,
                },
            ),
    {
        if self.locale.as_str().is_empty() || string_is(self.locale.as_str(), "auto") {
            locale_from_os_name(os_locale)
        } else {
            self.locale.clone()
        }
    }

    /// Applies one setting from the dashboard. Numbers that do not parse as
    /// `u32` fall back to their defaults; `"auto_start"` is on for `"true"`
    /// only and returns the new state, which the caller writes to the
    /// system; other keys change nothing.
    pub fn apply_setting(&mut self, key: &str, value: &str) -> (r: Option<bool>)
        ensures
            ({
                let parsed = |d: u32| match parse_u32(value@) {
                    Some(n) => n as u32,
                    None => d,
                };
                if key@ == "poll_interval_sec"@ {
                    &&& final(self).poll_interval_sec == parsed(180)
                    &&& r is None
                    &&& *final(self) == (AppConfig { poll_interval_sec: parsed(180), ..*old(self) })
                } else if key@ == "threshold_5h"@ {
                    &&& r is None
                    &&& *final(self) == (AppConfig { threshold_5h: parsed(20), ..*old(self) })
                } else if key@ == "threshold_7d"@ {
                    &&& r is None
                    &&& *final(self) == (AppConfig { threshold_7d: parsed(20), ..*old(self) })
                } else if key@ == "auto_start"@ {
                    &&& r == Some(value@ == "true"@)
                    &&& *final(self) == (AppConfig { auto_start: value@ == "true"@, ..*old(self) })
                } else {
                    &&& r is None
                    &&& *final(self) == *old(self)
                }
            }),
    {
        let v = chars_of(value);
        assert(v@.subrange(0, v.len() as int) =~= v@);
        let parsed = parse_u32_at(&v, 0, v.len());
        if string_is(key, "poll_interval_sec") {
            self.poll_interval_sec = match parsed {
                Some(n) => n,
                None => 180,
            };
            None
        } else if string_is(key, "threshold_5h") {
            self.threshold_5h = match parsed {
                Some(n) => n,
                None => 20,
            };
            None
        } else if string_is(key, "threshold_7d") {
            self.threshold_7d = match parsed {
                Some(n) => n,
                None => 20,
            };
            None
        } else if string_is(key, "auto_start") {
            let enabled = string_is(value, "true");
            self.auto_start = enabled;
            Some(enabled)
        } else {
            None
        }
    }
}

/// The poll interval, in seconds, of the tray menu's interval items in
/// order: 1, 3 and 5 minutes; `None` past the last item.
pub fn menu_interval_seconds(item: usize) -> (r: Option<u32>)
    ensures
        item == 0 ==> r == Some(60u32),
        item == 1 ==> r == Some(180u32),
        item == 2 ==> r == Some(300u32),
        item > 2 ==> r is None,
{
    if item == 0 {
        Some(60)
    } else if item == 1 {
        Some(180)
    } else if item == 2 {
        Some(300)
    } else {
        None
    }
}

/// The organization id kept in the session record.
pub fn session_org_id(v: &Json) -> (r: Option<String>)
    ensures
        match r {
            Some(s) => v.spec_get_str("org_id"@) == Some(s@),
            None => v.spec_get_str("org_id"@) is None,
        },
{
    match v.get_str("org_id") {
        Some(s) => Some(s.clone()),
        None => None,
    }
}

/// The members of an object whose values are strings, as name/value pairs.
pub open spec fn string_members(m: Seq<(String, Json)>) -> Seq<(Seq<char>, Seq<char>)> {
    m.filter_map(
        |p: (String, Json)|
            match p.1.spec_str() {
                Some(t) => Some((p.0@, t)),
                None => None,
            },
    )
}

/// The saved login: the `session_key` string, and the string-valued members
/// of `extra_cookies` (none when it is not an object). `None` without a
/// session key.
pub open spec fn spec_parse_credentials(v: Json) -> Option<(Seq<char>, Seq<(Seq<char>, Seq<char>)>)> {
    match v.spec_get_str("session_key"@) {
        None => None,
        Some(sk) => Some(
            (
                sk,
                match v.spec_get("extra_cookies"@) {
                    Some(Json::Object(m)) => string_members(m@),
                    _ => Seq::empty(),
                },
            ),
        ),
    }
}

pub open spec fn pair_views(v: Seq<(String, String)>) -> Seq<(Seq<char>, Seq<char>)> {
    v.map_values(|p: (String, String)| (p.0@, p.1@))
}

/// Reads a saved login record.
pub fn parse_credentials_json(v: &Json) -> (r: Option<(String, Vec<(String, String)>)>)
    ensures
        match r {
            Some((sk, extras)) => spec_parse_credentials(*v) == Some((sk@, pair_views(extras@))),
            None => spec_parse_credentials(*v) is None,
        },
{
    let sk = match v.get_str("session_key") {
        None => return None,
        Some(s) => s.clone(),
    };
    let mut extras: Vec<(String, String)> = Vec::new();
    if let Some(Json::Object(m)) = v.get("extra_cookies") {
        let n = m.len();
        let mut i: usize = 0;
        assert(m@.take(0) =~= Seq::<(String, Json)>::empty());
        while i < n
            invariant
                n == m@.len(),
                i <= n,
                pair_views(extras@) == string_members(m@.take(i as int)),
            decreases n - i,
        {
            assert(m@.take(i + 1).drop_last() =~= m@.take(i as int));
            assert(m@.take(i + 1).last() == m@[i as int]);
            if let Some(t) = m[i].1.as_str() {
                let ghost before = extras@;
                extras.push((m[i].0.clone(), t.clone()));
                assert(pair_views(extras@) =~= pair_views(before) + seq![(m@[i as int].0@, t@)]);
            }
            i = i + 1;
        }
        assert(m@.take(n as int) =~= m@);
        assert(v.spec_get("extra_cookies"@) == Some(Json::Object(*m)));
    } else {
        assert(pair_views(extras@) =~= Seq::<(Seq<char>, Seq<char>)>::empty());
    }
    Some((sk, extras))
}


/// The organization id in a session record's JSON text.
pub fn session_org_id_from_text(text: &str) -> (r: Option<String>)
    ensures
        match r {
            Some(s) => parsed(text@) matches Some(v) && v.spec_get_str("org_id"@) == Some(s@),
            None => parsed(text@) matches Some(v) ==> v.spec_get_str("org_id"@) is None,
        },
{
    match parse_json(text) {
        Ok(v) => session_org_id(&v),
        Err(_) => None,
    }
}

/// The saved login in a credential record's JSON text.
pub fn parse_credentials_text(text: &str) -> (r: Option<(String, Vec<(String, String)>)>)
    ensures
        match r {
            Some((sk, extras)) => parsed(text@) matches Some(v) && spec_parse_credentials(v)
                == Some((sk@, pair_views(extras@))),
            None => parsed(text@) matches Some(v) ==> spec_parse_credentials(v) is None,
        },
{
    match parse_json(text) {
        Ok(v) => parse_credentials_json(&v),
        Err(_) => None,
    }
}

} // verus!
