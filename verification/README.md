# usage_tank

A Windows system-tray monitor of a chat service's usage limits: a dual-gauge
icon shows how much of the 5-hour and 7-day allowances is left, a balloon
warns once when either falls below its threshold, and a small dashboard
shows the details.

## Layout

- `src/` is the verified library (Verus). It holds the program's logic with
  its contracts and laws:
  - `text`, `number`, `json`: characters, decimal numbers, the JSON value
    type the rest reads, and the parse of JSON text into it (by `serde_json`).
  - `time_util`: ISO-8601 timestamps, civil dates and "time until" texts.
  - `update`: version tags and the release check's decision.
  - `api`: request headers and addresses, error categories, organization
    choice and plan detection.
  - `cc`: the command-line agent's credential records and which copy to use.
  - `config`, `tauri_config`: settings, their defaults and their updates.
  - `i18n`: the string table and its fallbacks.
  - `tray`: the icon's pixels.
  - `monitor`: the main loop's and the poll loop's decisions.
  - `notify`, `win_util`: fixed-size wide-string buffers, registry values.
- `tests/` runs the library on concrete values.
- `app/` is the Windows program around the library: windows, tray, WebView2,
  HTTP, files, DPAPI and the registry. Readings of usage shares are floats
  and stay there.

The service's origin and the agent's directory name are not built in: the
program reads them from `TANK_WEB_ORIGIN`, `TANK_AGENT_DIR` and
`TANK_AGENT_NAME`, and the
release feed from `TANK_RELEASES_API` / `TANK_RELEASES_PAGE`.
