use lade::{LadeFile, LadeRule, LadeSecret, Outputs, RuleConfig, StrMap, split_env_files, select_secrets};

fn rule(file: Option<&str>, secrets: &[(&str, &str)]) -> LadeRule {
    let mut m = StrMap::new();
    for (k, v) in secrets {
        m.insert(k.to_string(), LadeSecret::Secret(v.to_string()));
    }
    LadeRule {
        config: file.map(|f| RuleConfig { file: Some(f.to_string()), onepassword_service_account: None }),
        secrets: m,
    }
}

fn file(rules: Vec<(&str, LadeRule)>) -> LadeFile {
    let mut commands = StrMap::new();
    for (p, r) in rules {
        commands.insert(p.to_string(), r);
    }
    LadeFile { commands }
}

#[test]
fn test_build_no_config_empty() {
    let config = LadeFile::build(vec![]).unwrap();
    assert!(config.collect("anything").is_empty());
}

#[test]
fn regex_patterns_match_anywhere() {
    let config = LadeFile::build(vec![(
        "/d".to_string(),
        file(vec![("terraform.*", rule(None, &[("KEY", "val")])), ("specific", rule(None, &[]))]),
    )])
    .unwrap();
    assert_eq!(config.collect("terraform plan"), vec![0]);
    assert_eq!(config.collect("run terraform apply"), vec![0]);
    assert!(config.collect("other command").is_empty());
}

#[test]
fn invalid_pattern_fails_the_build() {
    let built = LadeFile::build(vec![("/d".to_string(), file(vec![("[invalid regex", rule(None, &[]))]))]);
    assert!(built.is_err());
}

#[test]
fn ancestor_rules_come_first_and_closer_ones_win() {
    // Found from the working directory up: the child first, then the parent.
    let found = vec![
        ("/p/child".to_string(), file(vec![("cmd", rule(None, &[("SHARED", "child"), ("CHILD_KEY", "c")]))])),
        ("/p".to_string(), file(vec![("cmd", rule(None, &[("SHARED", "parent"), ("PARENT_KEY", "p")]))])),
    ];
    let config = LadeFile::build(found).unwrap();
    let matched = config.collect("cmd");
    assert_eq!(matched.len(), 2);
    assert_eq!(config.entry(matched[0]).origin, "/p");
    assert_eq!(config.entry(matched[1]).origin, "/p/child");
    let mut merged = Outputs::new();
    for i in matched {
        let e = config.entry(i);
        merged.merge(None, &select_secrets(&e.rule, &None));
    }
    let (env, _) = split_env_files(merged);
    assert_eq!(env.get("SHARED").unwrap(), "child");
    assert_eq!(env.get("PARENT_KEY").unwrap(), "p");
    assert_eq!(env.get("CHILD_KEY").unwrap(), "c");
}

#[test]
fn keys_are_grouped_by_output() {
    let config = LadeFile::build(vec![(
        "/d".to_string(),
        file(vec![
            ("cmd", rule(None, &[("KEY1", "v"), ("KEY2", "v")])),
            ("^cmd", rule(Some("secrets.json"), &[("KEY", "v")])),
        ]),
    )])
    .unwrap();
    let keys = config.collect_keys("cmd");
    assert_eq!(keys.env.unwrap(), vec!["KEY1".to_string(), "KEY2".to_string()]);
    assert_eq!(keys.files.len(), 1);
    assert_eq!(keys.files.get("/d/secrets.json").unwrap(), &vec!["KEY".to_string()]);
    let none = config.collect_keys("other");
    assert!(none.env.is_none() && none.files.is_empty());
}
