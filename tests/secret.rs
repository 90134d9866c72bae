use lade::{resolve_lade_secret, select_secrets, bootstrap_reference, rule_output, LadeRule, LadeSecret, RuleConfig, StrMap};

#[test]
fn test_resolve_lade_secret_string() {
    let secret = LadeSecret::Secret("value".to_string());
    assert_eq!(
        resolve_lade_secret(&secret, &Some("any".to_string())),
        Some("value".to_string())
    );
    assert_eq!(resolve_lade_secret(&secret, &None), Some("value".to_string()));
}

#[test]
fn test_resolve_lade_secret_user_match() {
    let mut map = StrMap::new();
    map.insert("zifeo".to_string(), Some("secret_for_zifeo".to_string()));
    map.insert(".".to_string(), Some("default_secret".to_string()));
    let secret = LadeSecret::User(map);
    assert_eq!(
        resolve_lade_secret(&secret, &Some("zifeo".to_string())),
        Some("secret_for_zifeo".to_string())
    );
}

#[test]
fn test_resolve_lade_secret_user_default_fallback() {
    let mut map = StrMap::new();
    map.insert("zifeo".to_string(), Some("secret_for_zifeo".to_string()));
    map.insert(".".to_string(), Some("default_secret".to_string()));
    let secret = LadeSecret::User(map);
    assert_eq!(
        resolve_lade_secret(&secret, &Some("other_user".to_string())),
        Some("default_secret".to_string())
    );
    assert_eq!(
        resolve_lade_secret(&secret, &None),
        Some("default_secret".to_string())
    );
}

#[test]
fn test_resolve_lade_secret_user_no_match_no_default() {
    let mut map = StrMap::new();
    map.insert("zifeo".to_string(), Some("secret_for_zifeo".to_string()));
    let secret = LadeSecret::User(map);
    assert_eq!(resolve_lade_secret(&secret, &Some("other".to_string())), None);
    assert_eq!(resolve_lade_secret(&secret, &None), None);
}

#[test]
fn test_resolve_lade_secret_user_null_default() {
    let mut map = StrMap::new();
    map.insert("zifeo".to_string(), Some("secret_for_zifeo".to_string()));
    map.insert(".".to_string(), None);
    let secret = LadeSecret::User(map);
    assert_eq!(resolve_lade_secret(&secret, &Some("other".to_string())), None);
    assert_eq!(resolve_lade_secret(&secret, &None), None);
}

fn per_user(entries: &[(&str, Option<&str>)]) -> LadeSecret {
    let mut map = StrMap::new();
    for (k, v) in entries {
        map.insert(k.to_string(), v.map(|s| s.to_string()));
    }
    LadeSecret::User(map)
}

#[test]
fn per_user_spec_picks_own_then_default() {
    let secret = per_user(&[("zifeo", Some("A")), (".", Some("B"))]);
    assert_eq!(resolve_lade_secret(&secret, &Some("zifeo".to_string())), Some("A".to_string()));
    assert_eq!(resolve_lade_secret(&secret, &Some("alice".to_string())), Some("B".to_string()));
    assert_eq!(resolve_lade_secret(&secret, &None), Some("B".to_string()));
    let no_default = per_user(&[("zifeo", Some("A"))]);
    assert_eq!(resolve_lade_secret(&no_default, &Some("alice".to_string())), None);
}

#[test]
fn own_entry_set_to_none_does_not_fall_back() {
    let secret = per_user(&[("zifeo", None), (".", Some("B"))]);
    assert_eq!(resolve_lade_secret(&secret, &Some("zifeo".to_string())), None);
}

fn rule(config: Option<RuleConfig>, secrets: Vec<(&str, LadeSecret)>) -> LadeRule {
    let mut m = StrMap::new();
    for (k, v) in secrets {
        m.insert(k.to_string(), v);
    }
    LadeRule { config, secrets: m }
}

#[test]
fn selection_drops_variables_without_value_for_user() {
    let r = rule(
        None,
        vec![
            ("PLAIN", LadeSecret::Secret("raw".to_string())),
            ("MINE", per_user(&[("zifeo", Some("doppler://h/p/e/X"))])),
        ],
    );
    let alice = select_secrets(&r, &Some("alice".to_string()));
    assert_eq!(alice.len(), 1);
    assert_eq!(alice.get("PLAIN").unwrap(), "raw");
    let zifeo = select_secrets(&r, &Some("zifeo".to_string()));
    assert_eq!(zifeo.get("MINE").unwrap(), "doppler://h/p/e/X");
}

#[test]
fn bootstrap_and_output_of_rule() {
    let r = rule(
        Some(RuleConfig {
            file: Some("out.json".to_string()),
            onepassword_service_account: Some(per_user(&[("zifeo", Some("op://host/vault/item"))])),
        }),
        vec![],
    );
    assert_eq!(
        bootstrap_reference(&r, &Some("zifeo".to_string())),
        Some("op://host/vault/item".to_string())
    );
    assert_eq!(bootstrap_reference(&r, &None), None);
    assert_eq!(rule_output(&r, "/proj"), Some("/proj/out.json".to_string()));
    assert_eq!(rule_output(&r, "/proj/"), Some("/proj/out.json".to_string()));
    let bare = rule(None, vec![]);
    assert_eq!(rule_output(&bare, "/proj"), None);
}
