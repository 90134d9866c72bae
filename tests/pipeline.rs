use lade::{
    assign, combine, route, select_secrets, Hydrater, LadeError, LadeFile, LadeRule, LadeSecret,
    ProviderKind, Raw, StrMap,
};

fn vars(pairs: &[(&str, &str)]) -> StrMap<String> {
    let mut m = StrMap::new();
    for (k, v) in pairs {
        m.insert(k.to_string(), v.to_string());
    }
    m
}

fn plain_rule(secrets: &[(&str, &str)]) -> LadeRule {
    let mut m = StrMap::new();
    for (k, v) in secrets {
        m.insert(k.to_string(), LadeSecret::Secret(v.to_string()));
    }
    LadeRule { config: None, secrets: m }
}

#[test]
fn test_add_routing() {
    assert!(route("file:///path/to/config.json?query=.key").0 == ProviderKind::File);
    assert!(route("file:///path/to/config.json").0 != ProviderKind::File);
    assert!(route("vault://host/mount/key/field").0 != ProviderKind::File);
}

#[test]
fn each_scheme_goes_to_its_provider() {
    assert_eq!(route("doppler://h/p/e/A").0, ProviderKind::Doppler);
    assert_eq!(route("infisical://h/p/e/A").0, ProviderKind::Infisical);
    assert_eq!(route("op://acct/vault/item/field").0, ProviderKind::OnePassword);
    assert_eq!(route("vault://h/m/k/f").0, ProviderKind::Vault);
    assert_eq!(route("passbolt://h/id/password").0, ProviderKind::Passbolt);
    assert_eq!(route("file:///a.json?query=.x").0, ProviderKind::File);
    assert_eq!(route("just a literal").0, ProviderKind::Raw);
    assert_eq!(route("https://example.com/x").0, ProviderKind::Raw);
    assert_eq!(route("!doppler://h/p/e/A").0, ProviderKind::Raw);
    assert_eq!(route("!file:///a.json?query=.x").0, ProviderKind::Raw);
}

#[test]
fn bang_escape_resolves_to_literal() {
    let mut h = Hydrater::new();
    h.add("!doppler://h/p/e/A".to_string()).unwrap();
    h.add("plain".to_string()).unwrap();
    let plan = h.plan("/cwd", "/home/u").unwrap();
    assert!(plan.batches.is_empty());
    assert_eq!(plan.immediate.get("!doppler://h/p/e/A").unwrap(), "doppler://h/p/e/A");
    assert_eq!(plan.immediate.get("plain").unwrap(), "plain");
    let mut raw = Raw::new();
    raw.add("!!x".to_string());
    assert_eq!(raw.resolve().get("!!x").unwrap(), "!x");
}

#[test]
fn references_of_one_key_share_one_call() {
    let mut h = Hydrater::new();
    for r in [
        "doppler://h/p/e/A",
        "doppler://h/p/e/B",
        "doppler://h/p/e/C",
        "doppler://h/p/other/D",
        "vault://h/secret/app/x",
        "vault://h/secret/app/y",
    ] {
        h.add(r.to_string()).unwrap();
    }
    let plan = h.plan("/cwd", "/home/u").unwrap();
    assert_eq!(plan.batches.len(), 3);
    assert_eq!(plan.batches[0].members.len(), 3);
    assert_eq!(plan.batches[1].members.len(), 1);
    assert_eq!(plan.batches[2].members.len(), 2);
    assert_eq!(
        plan.batches[0].command(),
        vec![
            "doppler", "--api-host", "https://h", "secrets", "--project", "p", "--config", "e",
            "--json"
        ]
    );
    assert_eq!(
        plan.batches[2].command(),
        vec!["vault", "kv", "get", "-address=https://h", "-mount=secret", "-format=json", "app"]
    );
}

#[test]
fn one_export_serves_both_references_and_a_missing_key_fails_the_group() {
    let mut h = Hydrater::new();
    h.add("doppler://h/p/e/A".to_string()).unwrap();
    h.add("doppler://h/p/e/B".to_string()).unwrap();
    let plan = h.plan("/cwd", "/home/u").unwrap();
    assert_eq!(plan.batches.len(), 1);
    let batch = &plan.batches[0];
    let got = batch.extract(&vars(&[("A", "a-value"), ("B", "b-value")])).unwrap();
    assert_eq!(got.get("doppler://h/p/e/A").unwrap(), "a-value");
    assert_eq!(got.get("doppler://h/p/e/B").unwrap(), "b-value");
    match batch.extract(&vars(&[("A", "a-value")])) {
        Err(LadeError::SecretNotFound { field, location }) => {
            assert_eq!(field, "B");
            assert_eq!(location, "h/p/e");
        }
        other => panic!("unexpected {:?}", other),
    }
}

#[test]
fn deploy_rule_resolves_through_vault() {
    let mut commands = StrMap::new();
    commands.insert(
        "deploy.*".to_string(),
        plain_rule(&[("DB_PASS", "vault://host/secret/app/password")]),
    );
    let file = LadeFile { commands };
    let config = LadeFile::build(vec![("/proj".to_string(), file)]).unwrap();
    let matched = config.collect("deploy prod");
    assert_eq!(matched, vec![0]);
    let entry = config.entry(matched[0]);
    assert_eq!(entry.origin, "/proj");
    let env = select_secrets(&entry.rule, &None);
    let mut h = Hydrater::new();
    for i in 0..env.len() {
        h.add(env.entry(i).1.clone()).unwrap();
    }
    let plan = h.plan("/proj", "/home/u").unwrap();
    assert_eq!(plan.batches.len(), 1);
    // The backend answered {"data":{"data":{"password":"s3cret"}}}.
    let answer = vars(&[("password", "s3cret")]);
    let results = vec![plan.batches[0].extract(&answer)];
    let hydration = combine(results, &plan.immediate).unwrap();
    let out = assign(&env, &hydration).unwrap();
    assert_eq!(out.len(), 1);
    assert_eq!(out.get("DB_PASS").unwrap(), "s3cret");
}

#[test]
fn first_failure_wins_and_success_is_a_union() {
    let imm = vars(&[("lit", "lit")]);
    let ok = combine(vec![Ok(vars(&[("a", "1")])), Ok(vars(&[("b", "2")]))], &imm).unwrap();
    assert_eq!(ok.len(), 3);
    let failed = combine(
        vec![
            Ok(vars(&[("a", "1")])),
            Err(LadeError::Backend("first".to_string())),
            Err(LadeError::Backend("second".to_string())),
        ],
        &imm,
    );
    match failed {
        Err(LadeError::Backend(m)) => assert_eq!(m, "first"),
        other => panic!("unexpected {:?}", other),
    }
}

#[test]
fn unresolved_reference_is_reported() {
    let env = vars(&[("X", "ref-x")]);
    match assign(&env, &StrMap::new()) {
        Err(LadeError::Unresolved(r)) => assert_eq!(r, "ref-x"),
        other => panic!("unexpected {:?}", other),
    }
}

#[test]
fn layouts_of_other_providers() {
    let mut h = Hydrater::new();
    h.add("infisical://h:8080/proj/dev/sub/dir/NAME".to_string()).unwrap();
    h.add("passbolt://pb/res-1/password".to_string()).unwrap();
    h.add("op://acct/vault%20one/item/field".to_string()).unwrap();
    h.add("file://~/conf.json?query=.db.password".to_string()).unwrap();
    h.add("file://rel/conf.yaml?query=.k".to_string()).unwrap();
    let plan = h.plan("/work", "/home/u").unwrap();
    assert_eq!(plan.batches.len(), 5);
    let inf = &plan.batches[0];
    assert_eq!(inf.key, vec!["h:8080", "proj", "dev", "/sub/dir"]);
    assert_eq!(inf.members[0].0, "NAME");
    assert_eq!(
        inf.command(),
        vec![
            "infisical", "--domain", "https://h:8080/api", "export", "--env", "dev", "--path",
            "/sub/dir", "--format", "json"
        ]
    );
    let pb = &plan.batches[1];
    assert_eq!(pb.key, vec!["pb", "res-1"]);
    assert_eq!(pb.members[0].0, "password");
    let op = &plan.batches[2];
    assert_eq!(op.key, vec!["acct"]);
    assert_eq!(op.members[0].0, "op://vault one/item/field");
    assert_eq!(op.command(), vec!["op", "inject", "--account", "acct"]);
    let home = &plan.batches[3];
    assert_eq!(home.key, vec!["/home/u/conf.json"]);
    assert_eq!(home.members[0].0, ".db.password");
    let rel = &plan.batches[4];
    assert_eq!(rel.key, vec!["/work/rel/conf.yaml"]);
}

#[test]
fn malformed_reference_fails_the_plan() {
    let mut h = Hydrater::new();
    h.add("doppler://h/p".to_string()).unwrap();
    assert!(matches!(h.plan("/", "/"), Err(LadeError::MalformedReference(_))));
}

#[test]
fn onepassword_batch_round_trip() {
    let mut h = Hydrater::new();
    h.add("op://acct/v/i/a".to_string()).unwrap();
    h.add("op://acct/v/i/b".to_string()).unwrap();
    let plan = h.plan("/", "/").unwrap();
    let b = &plan.batches[0];
    let sep = "'Km5Ge8AbNc+QSBauOIN0jg'";
    assert_eq!(b.inject_input(), format!("op://v/i/a{sep}op://v/i/b"));
    let got = b.extract_injected(&format!("  one{sep}two\nlines\n")).unwrap();
    assert_eq!(got.get("op://acct/v/i/a").unwrap(), "one");
    assert_eq!(got.get("op://acct/v/i/b").unwrap(), "two\\nlines");
    assert!(matches!(
        b.extract_injected("only-one"),
        Err(LadeError::BatchMismatch { expected: 2, found: 1 })
    ));
}

#[test]
fn duplicate_reference_is_taken_once() {
    let mut h = Hydrater::new();
    h.add("vault://h/m/k/f".to_string()).unwrap();
    h.add("vault://h/m/k/f".to_string()).unwrap();
    let plan = h.plan("/", "/").unwrap();
    assert_eq!(plan.batches[0].members.len(), 1);
}

#[test]
fn vault_key_path_and_field_are_decoded() {
    let mut h = Hydrater::new();
    h.add("vault://h:8200/secret/my%20app/pass%2Fword%C3%A9".to_string()).unwrap();
    let plan = h.plan("/", "/").unwrap();
    let b = &plan.batches[0];
    assert_eq!(b.key, vec!["h:8200", "secret", "my app"]);
    assert_eq!(b.members[0].0, "pass/word\u{e9}");
    assert_eq!(
        b.command(),
        vec!["vault", "kv", "get", "-address=https://h:8200", "-mount=secret", "-format=json", "my app"]
    );
}

#[test]
fn error_messages_name_what_failed() {
    let e = LadeError::SecretNotFound { field: "B".to_string(), location: "h/p/e".to_string() };
    assert_eq!(e.message(), "secret not found: B in h/p/e");
    assert_eq!(
        LadeError::FileExists("/x.json".to_string()).message(),
        "file already exists: /x.json"
    );
}
