use usage_tank::update::parse_version;

#[test]
fn parses_common_forms() {
    assert_eq!(parse_version("v1.4.0"), Some((1, 4, 0)));
    assert_eq!(parse_version("1.4"), Some((1, 4, 0)));
    assert_eq!(parse_version("2"), Some((2, 0, 0)));
    assert_eq!(parse_version("2.0.0-beta.1"), Some((2, 0, 0)));
    assert_eq!(parse_version(" v10.2.3 "), Some((10, 2, 3)));
    assert_eq!(parse_version("garbage"), None);
}

#[test]
fn orders_by_precedence() {
    assert!(parse_version("v1.5.0") > parse_version("v1.4.9"));
    assert!(parse_version("v2.0.0") > parse_version("v1.99.99"));
    assert!(parse_version("v1.4.1") > parse_version("v1.4.0"));
    // Equal versions must NOT be treated as an update.
    assert!(!(parse_version("v1.4.0") > parse_version("1.4.0")));
}

use usage_tank::json::Json;
use usage_tank::update::update_from_release;

fn release(tag: &str, url: Option<&str>) -> Json {
    let mut members = vec![("tag_name".to_string(), Json::Str(tag.to_string()))];
    if let Some(u) = url {
        members.push(("html_url".to_string(), Json::Str(u.to_string())));
    }
    Json::Object(members)
}

#[test]
fn strips_leading_v_and_suffixes() {
    assert_eq!(parse_version("vv1.2.3"), Some((1, 2, 3)));
    assert_eq!(parse_version("1.2.3+build.7"), Some((1, 2, 3)));
    assert_eq!(parse_version("1.2.3.4"), Some((1, 2, 3)));
    assert_eq!(parse_version("1..2"), None);
    assert_eq!(parse_version("+1.2"), None);
    assert_eq!(parse_version("4294967296"), None);
    assert_eq!(parse_version("4294967295"), Some((u32::MAX, 0, 0)));
    assert_eq!(parse_version(""), None);
}

#[test]
fn announces_newer_releases_only() {
    let page = "https://example.org/releases";
    let u = update_from_release(&release("v1.5.0", Some("https://example.org/r/1.5")), "1.4.0", page)
        .expect("newer release");
    assert_eq!(u.version, "1.5.0");
    assert_eq!(u.url, "https://example.org/r/1.5");
    let u = update_from_release(&release("vv2.0.0-rc1", None), "1.4.0", page).expect("newer");
    assert_eq!(u.version, "2.0.0-rc1");
    assert_eq!(u.url, page);
    assert!(update_from_release(&release("v1.4.0", None), "1.4.0", page).is_none());
    assert!(update_from_release(&release("v1.3.9", None), "1.4.0", page).is_none());
    assert!(update_from_release(&release("nightly", None), "1.4.0", page).is_none());
    assert!(update_from_release(&Json::Object(vec![]), "1.4.0", page).is_none());
    assert!(update_from_release(&release("v9.0.0", None), "dev", page).is_none());
}
