use rusty_esp_mid::cap::{any_satisfies, grant_satisfies, Cap};

#[test]
fn scope_rules_match_mata_cap() {
    assert!(grant_satisfies("ledger:read", "ledger:read"));
    assert!(grant_satisfies("ledger:read", "ledger:read@eu"));
    assert!(grant_satisfies("ledger:read@us", "ledger:read@us"));
    assert!(!grant_satisfies("ledger:read@us", "ledger:read@eu"));
    assert!(!grant_satisfies("ledger:read@us", "ledger:read"));
    assert!(!grant_satisfies("ledger:read", "ledger:admin"));
}

#[test]
fn malformed_never_satisfies() {
    assert!(!grant_satisfies("ledger", "ledger:read"));
    assert!(!grant_satisfies("ledger:read", "ledger"));
    assert!(!grant_satisfies(":read", ":read"));
    assert!(!grant_satisfies("a:b@", "a:b@"));
    assert!(Cap::parse("a:b:c").is_none());
    assert!(Cap::parse("a:b@c@d").is_none());
}

#[test]
fn any_over_a_grant_list() {
    let grants = ["camera:snapshot@front", "telemetry:read"];
    assert!(any_satisfies(&grants, "telemetry:read@anything"));
    assert!(any_satisfies(&grants, "camera:snapshot@front"));
    assert!(!any_satisfies(&grants, "camera:snapshot@back"));
    assert!(!any_satisfies(&grants, "gpio:set"));
}

#[test]
fn parsed_cap_exposes_its_parts() {
    let c = Cap::parse("camera:snapshot@front").unwrap();
    assert_eq!(c.component, "camera");
    assert_eq!(c.action, "snapshot");
    assert_eq!(c.scope, Some("front"));
    let c = Cap::parse("telemetry:read").unwrap();
    assert_eq!(c.scope, None);
    assert!(Cap::parse("").is_none());
    assert!(Cap::parse("a:").is_none());
}

#[test]
fn unscoped_grant_covers_every_scope_and_malformed_needed_is_refused() {
    assert!(grant_satisfies("a:b", "a:b@anything"));
    assert!(!grant_satisfies("a:b", "a:b@"));
    let none: [&str; 0] = [];
    assert!(!any_satisfies(&none, "a:b"));
    assert!(!any_satisfies(&["a:b", "not-a-cap"], "not-a-cap"));
}
