use lade::{edit_profile, Shell, StrMap};

fn vars(pairs: &[(&str, &str)]) -> StrMap<String> {
    let mut m = StrMap::new();
    for (k, v) in pairs {
        m.insert(k.to_string(), v.to_string());
    }
    m
}

#[test]
fn test_set_bash_single_key() {
    let result = Shell::Bash.set(&vars(&[("KEY", "value")]));
    assert_eq!(result, "export KEY='value'");
}

#[test]
fn test_set_zsh_single_key() {
    assert_eq!(Shell::Zsh.set(&vars(&[("KEY", "value")])), "export KEY='value'");
}

#[test]
fn test_set_fish_single_key() {
    assert_eq!(
        Shell::Fish.set(&vars(&[("KEY", "value")])),
        "set --global --export KEY 'value'"
    );
}

#[test]
fn test_set_empty_map() {
    assert_eq!(Shell::Bash.set(&StrMap::new()), "");
}

#[test]
fn test_set_multiple_keys_contains() {
    let result = Shell::Bash.set(&vars(&[("A", "1"), ("B", "2")]));
    assert!(result.contains("export A='1'") && result.contains("export B='2'"));
    assert!(result.contains(';'));
}

#[test]
fn test_unset_bash_single_key() {
    assert_eq!(Shell::Bash.unset(&vec!["KEY".to_string()]), "unset -v KEY");
}

#[test]
fn test_unset_fish_single_key() {
    assert_eq!(
        Shell::Fish.unset(&vec!["KEY".to_string()]),
        "set --global --erase KEY"
    );
}

#[test]
fn test_unset_multiple_keys_order_preserved() {
    assert_eq!(
        Shell::Bash.unset(&vec!["KEY1".to_string(), "KEY2".to_string()]),
        "unset -v KEY1;unset -v KEY2"
    );
}

#[test]
fn set_keeps_insertion_order() {
    assert_eq!(
        Shell::Sh.set(&vars(&[("A", "1"), ("B", "2")])),
        "export A='1';export B='2'"
    );
}

#[test]
fn shell_names_round_trip() {
    for name in ["bash", "zsh", "fish", "sh"] {
        assert_eq!(Shell::from_name(name).unwrap().bin(), name);
    }
    assert!(Shell::from_name("tcsh").is_err());
}

#[test]
fn hooks_exist_for_all_but_sh() {
    assert_eq!(
        Shell::Bash.on().unwrap(),
        vec!["bash-preexec.sh".to_string(), "on.bash".to_string()]
    );
    assert_eq!(Shell::Fish.off().unwrap(), "off.fish");
    assert!(Shell::Sh.on().is_err());
    assert!(Shell::Sh.off().is_err());
    assert!(Shell::Sh.install("/home/u", "/bin/lade").is_err());
}

#[test]
fn install_names_profile_and_line() {
    let (file, line) = Shell::Zsh.install("/home/u", "/bin/lade").unwrap();
    assert_eq!(file, "/home/u/.zshrc");
    assert_eq!(line, "eval \"$(/bin/lade on)\"");
    assert_eq!(Shell::Fish.uninstall("/home/u").unwrap(), "/home/u/.config/fish/config.fish");
}

#[test]
fn edit_profile_appends_marked_line_once() {
    let once = edit_profile("existing content\n", "eval $(lade on)", true);
    assert_eq!(once, "existing content\neval $(lade on)  # lade-do-not-edit");
    let twice = edit_profile(&once, "eval $(lade on)", true);
    assert_eq!(twice, once);
}

#[test]
fn edit_profile_uninstall_removes_marked_line() {
    let out = edit_profile(
        "other line\neval $(lade on)  # lade-do-not-edit\nmore content",
        "eval $(lade on)",
        false,
    );
    assert_eq!(out, "other line\nmore content");
    assert_eq!(edit_profile("line1\nline2", "x", false), "line1\nline2");
}
