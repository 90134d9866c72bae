use lade::{check_remove, check_write, file_format, split_env_files, FileFormat, LadeError, Outputs, StrMap};

fn vars(pairs: &[(&str, &str)]) -> StrMap<String> {
    let mut m = StrMap::new();
    for (k, v) in pairs {
        m.insert(k.to_string(), v.to_string());
    }
    m
}

#[test]
fn test_split_env_only() {
    let mut hydration = Outputs::new();
    hydration.merge(None, &vars(&[("KEY", "val")]));
    let (env, files) = split_env_files(hydration);
    assert_eq!(env.get("KEY").unwrap(), "val");
    assert!(files.is_empty());
}

#[test]
fn test_split_files_only() {
    let path = "/tmp/secrets_lade_test.json".to_string();
    let mut hydration = Outputs::new();
    hydration.merge(Some(path.clone()), &vars(&[("KEY", "val")]));
    let (env, files) = split_env_files(hydration);
    assert!(env.is_empty());
    assert_eq!(files.get(&path).unwrap().get("KEY").unwrap(), "val");
}

#[test]
fn test_split_mixed() {
    let path = "/tmp/secrets_lade_mixed.json".to_string();
    let mut hydration = Outputs::new();
    hydration.merge(None, &vars(&[("ENV_KEY", "env_val")]));
    hydration.merge(Some(path.clone()), &vars(&[("FILE_KEY", "file_val")]));
    let (env, files) = split_env_files(hydration);
    assert_eq!(env.get("ENV_KEY").unwrap(), "env_val");
    assert_eq!(files.get(&path).unwrap().get("FILE_KEY").unwrap(), "file_val");
}

#[test]
fn test_write_files_unsupported_extension_error() {
    assert!(check_write("/tmp/dir/output.txt", false).is_err());
}

#[test]
fn test_remove_files_missing_error() {
    assert!(check_remove("/tmp/dir/nonexistent_lade_test.json", false).is_err());
}

#[test]
fn writing_over_an_existing_file_is_refused() {
    match check_write("/proj/secrets.json", true) {
        Err(LadeError::FileExists(p)) => assert_eq!(p, "/proj/secrets.json"),
        other => panic!("unexpected {:?}", other),
    }
}

#[test]
fn write_formats_by_extension() {
    assert_eq!(check_write("/p/out.json", false).unwrap(), FileFormat::Json);
    assert_eq!(check_write("/p/out.yml", false).unwrap(), FileFormat::Yaml);
    assert_eq!(check_write("/p/out.yaml", false).unwrap(), FileFormat::Yaml);
    assert!(check_write("/p/out.toml", false).is_err());
    assert!(check_remove("/p/out.json", true).is_ok());
}

#[test]
fn read_formats_by_extension() {
    assert_eq!(file_format("/a/b.toml").unwrap(), FileFormat::Toml);
    assert_eq!(file_format("/a/b.ini").unwrap(), FileFormat::Ini);
    assert_eq!(file_format("/a/b.yml").unwrap(), FileFormat::Yaml);
    match file_format("/a/b.txt") {
        Err(LadeError::UnsupportedFormat(e)) => assert_eq!(e, "txt"),
        other => panic!("unexpected {:?}", other),
    }
}

#[test]
fn merging_into_one_output_lets_later_values_win() {
    let mut hydration = Outputs::new();
    hydration.merge(None, &vars(&[("A", "root"), ("B", "root")]));
    hydration.merge(None, &vars(&[("A", "child")]));
    let (env, _) = split_env_files(hydration);
    assert_eq!(env.get("A").unwrap(), "child");
    assert_eq!(env.get("B").unwrap(), "root");
}
