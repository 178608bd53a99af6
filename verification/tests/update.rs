use wtx::json::Json;
use wtx::plan::{self, After, Verb};
use wtx::update::{
    accept_cache, brew_display, brew_error, brew_list_args, cache_is_fresh, cache_path,
    check_report, not_modified, parse_brew_versions, parse_version, released, status,
    status_from_cache, strip_tag, tui_check_disabled, tui_state, upgrade, upgrade_captured,
    verify_upgrade, UpdateCache, UpdateStatus, CACHE_TTL_SECS, HOMEBREW_FORMULA, SCHEMA_VERSION,
};

const CURRENT: &str = "0.9.0";

fn cache(checked_at: u64) -> UpdateCache {
    UpdateCache {
        schema_version: SCHEMA_VERSION,
        checked_at,
        etag: Some("etag".into()),
        latest_version: "0.8.0".into(),
        release_url: "https://example.test/release".into(),
    }
}

fn value(s: &UpdateStatus) -> serde_json::Value {
    match s.to_json() {
        Json::Obj(members) => {
            let mut map = serde_json::Map::new();
            for (k, v) in members {
                let v = match v {
                    Json::Bool(b) => serde_json::Value::from(b),
                    Json::Num(n) => serde_json::Value::from(n),
                    Json::Str(s) => serde_json::Value::from(s),
                    _ => panic!("unexpected member {k}"),
                };
                map.insert(k, v);
            }
            serde_json::Value::Object(map)
        }
        _ => panic!("expected an object"),
    }
}

#[test]
fn accepts_github_v_prefix() {
    let v = parse_version("v1.2.3").unwrap();
    assert_eq!((v.major, v.minor, v.patch), (1, 2, 3));
    assert_eq!((v.pre.as_str(), v.build.as_str()), ("", ""));
    assert_eq!(v.text(), "1.2.3");
}

#[test]
fn compares_versions_semantically() {
    let result = status(CURRENT, "v999.0.0", "https://example.test/release").unwrap();
    assert!(result.update_available);
    assert_eq!(result.latest_version, "999.0.0");
}

#[test]
fn cache_expires_after_twenty_four_hours() {
    assert!(cache_is_fresh(&cache(100), 100 + CACHE_TTL_SECS - 1));
    assert!(!cache_is_fresh(&cache(100), 100 + CACHE_TTL_SECS));
}

#[test]
fn json_contract_is_versioned() {
    let value = value(&status(CURRENT, "v1.2.3", "https://example.test").unwrap());
    assert_eq!(value["schema_version"], 1);
    assert!(value.get("current_version").is_some());
    assert_eq!(value["latest_version"], "1.2.3");
    assert!(value.get("update_available").is_some());
    assert_eq!(value["release_url"], "https://example.test");
}

#[test]
fn upgrade_refreshes_metadata_before_upgrading_only_wtx() {
    let calls: Vec<Vec<String>> = upgrade()
        .into_iter()
        .filter(|s| s.verb == Verb::Brew)
        .map(|s| s.args)
        .collect();

    assert_eq!(
        calls,
        [
            vec!["update".to_string(), "--quiet".to_string()],
            vec![
                "upgrade".to_string(),
                "--yes".to_string(),
                "--formula".to_string(),
                HOMEBREW_FORMULA.to_string(),
            ],
        ]
    );
}

#[test]
fn upgrade_stops_when_metadata_refresh_fails() {
    let mut calls = 0;
    let mut err = None;
    for step in upgrade() {
        if step.verb != Verb::Brew {
            continue;
        }
        calls += 1;
        if let After::Stop(e) = plan::after(&step, Some("update failed")) {
            err = Some(e);
            break;
        }
    }

    assert_eq!(calls, 1);
    assert_eq!(err.unwrap(), "update failed");
}

#[test]
fn parses_the_newest_installed_homebrew_version() {
    let v = parse_brew_versions("wtx 0.9.0 1.0.0_1\n").unwrap();
    assert_eq!((v.major, v.minor, v.patch), (1, 0, 0));
    assert!(parse_brew_versions("wtx\n").is_err());
}

#[test]
fn the_newest_version_is_found_in_any_order() {
    let newest = |s: &str| parse_brew_versions(s).unwrap().text();
    assert_eq!(newest("wtx 1.10.0 1.9.0 1.2.0"), "1.10.0");
    assert_eq!(newest("wtx bad 1.0.0-rc.1 1.0.0 x"), "1.0.0");
    assert_eq!(newest("wtx 1.0.0 1.0.0-rc.1"), "1.0.0");
    assert_eq!(
        parse_brew_versions("").err().unwrap(),
        "Homebrew did not report an installed wtx version"
    );
}

#[test]
fn versions_keep_their_suffixes() {
    assert_eq!(parse_version("V1.2.3-rc.1+b7").unwrap().text(), "1.2.3-rc.1+b7");
    assert_eq!(strip_tag("vv1"), "v1");
    assert_eq!(strip_tag(""), "");
    assert_eq!(
        parse_version("v1.2").err().unwrap(),
        "invalid release version: v1.2"
    );
    assert!(parse_version("01.2.3").is_err());
}

#[test]
fn versions_are_ordered_as_semver_orders_them() {
    let all = [
        "1.0.0-alpha",
        "1.0.0-alpha.1",
        "1.0.0-alpha.beta",
        "1.0.0-beta.2",
        "1.0.0-beta.11",
        "1.0.0",
        "1.0.0+a",
        "1.0.1",
        "1.10.0",
        "2.0.0",
    ];
    for a in all {
        for b in all {
            let expected =
                semver::Version::parse(a).unwrap() < semver::Version::parse(b).unwrap();
            assert_eq!(status(a, b, "").unwrap().update_available, expected, "{a} {b}");
        }
    }
}

#[test]
fn a_bad_version_is_named() {
    let err = |a: &str, b: &str| status(a, b, "u").err().unwrap();
    assert_eq!(err("x", "1.0.0"), "invalid release version: x");
    assert_eq!(err("1.0.0", "vx"), "invalid release version: vx");
}

#[test]
fn a_check_reads_back_from_its_cache() {
    let checked = released(CURRENT, "v1.2.3", "https://u", Some("e".into()), 500).unwrap();
    assert!(checked.status.update_available);
    assert_eq!(checked.cache.checked_at, 500);
    assert_eq!(checked.cache.etag.as_deref(), Some("e"));
    let again = status_from_cache(CURRENT, &checked.cache).unwrap();
    assert_eq!(value(&again), value(&checked.status));
    assert!(cache_is_fresh(&checked.cache, 500));
    let kept = not_modified(CURRENT, Some(checked.cache), 900).unwrap();
    assert_eq!(kept.cache.checked_at, 900);
    assert_eq!(kept.cache.etag.as_deref(), Some("e"));
    assert_eq!(value(&kept.status), value(&again));
    assert_eq!(
        not_modified(CURRENT, None, 900).err().unwrap(),
        "GitHub returned 304 without a cache"
    );
    assert!(released(CURRENT, "nightly", "u", None, 0).is_err());
}

#[test]
fn caches_of_another_schema_are_refused() {
    assert!(accept_cache(cache(1)).is_ok());
    let mut other = cache(1);
    other.schema_version += 1;
    assert!(!cache_is_fresh(&other, 1));
    assert_eq!(
        accept_cache(other).err().unwrap(),
        "unsupported update cache schema"
    );
    assert!(cache_is_fresh(&cache(u64::MAX), 0));
    assert_eq!(cache_path("/h"), "/h/.wtx/update-check.json");
}

#[test]
fn the_console_starts_from_the_cache() {
    let mut c = cache(100);
    assert!(matches!(tui_state(None, CURRENT, Some(&c), 100), (None, false)));
    c.latest_version = "9.0.0".into();
    assert!(matches!(tui_state(None, CURRENT, Some(&c), 100), (Some(s), false) if s.latest_version == "9.0.0"));
    assert!(matches!(
        tui_state(None, CURRENT, Some(&c), 100 + CACHE_TTL_SECS),
        (None, true)
    ));
    assert!(matches!(tui_state(None, CURRENT, None, 0), (None, true)));
    c.latest_version = "bad".into();
    assert!(matches!(tui_state(None, CURRENT, Some(&c), 100), (None, true)));
    assert!(matches!(tui_state(Some("YES"), CURRENT, Some(&c), 100), (None, false)));
    for v in ["1", "true", "True", "yes"] {
        assert!(tui_check_disabled(Some(v)));
    }
    for v in ["", "0", "no", "tru"] {
        assert!(!tui_check_disabled(Some(v)));
    }
    assert!(!tui_check_disabled(None));
}

#[test]
fn a_check_is_reported() {
    let s = status(CURRENT, "1.0.0", "https://u").unwrap();
    assert_eq!(
        check_report(&s),
        ["wtx 1.0.0 is available (current 0.9.0)", "Upgrade: wtx upgrade", "https://u"]
    );
    let s = status(CURRENT, "0.9.0", "https://u").unwrap();
    assert_eq!(check_report(&s), ["wtx 0.9.0 is up to date"]);
}

#[test]
fn brew_is_run_and_its_errors_are_shown() {
    let args = brew_list_args();
    assert_eq!(brew_display(&args), "brew list --versions --formula rakutek/tap/wtx");
    let up = vec!["update".to_string()];
    assert_eq!(brew_error(&up, "a\nb\n", "c"), "`brew update` failed: b");
    assert_eq!(brew_error(&up, "\n", "c\n"), "`brew update` failed: c");
    assert_eq!(
        brew_error(&up, "", ""),
        "`brew update` failed: Homebrew command failed"
    );
}

#[test]
fn an_upgrade_reaches_the_expected_version() {
    let steps = upgrade_captured("1.0.0").unwrap();
    assert_eq!(steps.len(), 2);
    assert!(steps.iter().all(|s| s.verb == Verb::BrewCapture));
    assert_eq!(
        upgrade_captured("x").err().unwrap(),
        "invalid release version: x"
    );
    assert!(verify_upgrade("1.0.0", "wtx 1.0.0").is_ok());
    assert!(verify_upgrade("v1.0.0", "wtx 1.1.0").is_ok());
    assert_eq!(
        verify_upgrade("1.0.0", "wtx 0.9.0").err().unwrap(),
        "Homebrew installed wtx 0.9.0, but 1.0.0 is available; retry after the tap updates"
    );
    assert!(verify_upgrade("1.0.0", "wtx").is_err());
    assert!(verify_upgrade("x", "wtx 1.0.0").is_err());
}
