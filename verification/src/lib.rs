//! Usage monitor logic: timestamps, versions, plan detection, settings and
//! tray-icon pixels, each with its contract.

pub mod api;
pub mod cc;
pub mod config;
pub mod i18n;
pub mod json;
pub mod monitor;
pub mod notify;
pub mod number;
pub mod tauri_config;
pub mod text;
pub mod time_laws;
pub mod time_util;
pub mod tray;
pub mod update;
pub mod win_util;

use vstd::prelude::*;

verus! {

} // verus!
