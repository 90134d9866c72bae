use lade::interpolate::substitute_tokens;
use lade::{resolve, resolve_one, StrMap};

fn vars(pairs: &[(&str, &str)]) -> StrMap<String> {
    let mut m = StrMap::new();
    for (k, v) in pairs {
        m.insert(k.to_string(), v.to_string());
    }
    m
}

#[test]
fn test_resolve_one_no_vars() {
    assert_eq!(
        resolve_one("hello world", &StrMap::new()).unwrap(),
        "hello world"
    );
}

#[test]
fn test_resolve_one_dollar_var() {
    let vars = vars(&[("FOO", "bar")]);
    assert_eq!(resolve_one("prefix_$FOO", &vars).unwrap(), "prefix_bar");
}

#[test]
fn test_resolve_one_braces_var() {
    let vars = vars(&[("FOO", "bar")]);
    assert_eq!(
        resolve_one("prefix_${FOO}_suffix", &vars).unwrap(),
        "prefix_bar_suffix"
    );
}

#[test]
fn test_resolve_one_multiple_vars() {
    let vars = vars(&[("A", "hello"), ("B", "world")]);
    assert_eq!(resolve_one("$A $B", &vars).unwrap(), "hello world");
}

#[test]
fn test_resolve_one_unknown_var_empty() {
    assert_eq!(resolve_one("val/$MISSING", &StrMap::new()).unwrap(), "val/");
}

#[test]
fn test_resolve_one_adjacent_braced_vars() {
    let vars = vars(&[("A", "foo"), ("B", "bar")]);
    assert_eq!(resolve_one("${A}${B}", &vars).unwrap(), "foobar");
}

#[test]
fn test_resolve_one_word_boundary_without_braces() {
    let vars = vars(&[("FOO", "bar")]);
    assert_eq!(resolve_one("$FOO_SUFFIX", &vars).unwrap(), "");
}

#[test]
fn test_resolve_batch() {
    let kvs = vars(&[("URL", "https://$HOST/api"), ("STATIC", "literal")]);
    let vars = vars(&[("HOST", "example.com")]);
    let result = resolve(&kvs, &vars).unwrap();
    assert_eq!(result.get("URL").unwrap(), "https://example.com/api");
    assert_eq!(result.get("STATIC").unwrap(), "literal");
}

#[test]
fn missing_variable_alone_gives_empty_text() {
    assert_eq!(resolve_one("$MISSING", &StrMap::new()).unwrap(), "");
}

#[test]
fn substituted_values_are_not_scanned_again() {
    let vars = vars(&[("A", "$B"), ("B", "x")]);
    assert_eq!(resolve_one("$A", &vars).unwrap(), "$B");
}

#[test]
fn lone_dollar_and_empty_braces_stay() {
    let vars = vars(&[("A", "x")]);
    assert_eq!(resolve_one("cost $ 5 ${} $", &vars).unwrap(), "cost $ 5 ${} $");
}

#[test]
fn unclosed_brace_token_is_replaced() {
    let vars = vars(&[("A", "x")]);
    assert_eq!(resolve_one("${A-", &vars).unwrap(), "x-");
}

#[test]
fn resolve_keeps_all_keys() {
    let kvs = vars(&[("X", "$Y"), ("Z", "plain")]);
    let result = resolve(&kvs, &StrMap::new()).unwrap();
    assert_eq!(result.len(), 2);
    assert_eq!(result.get("X").unwrap(), "");
}

#[test]
fn unicode_letters_are_word_characters() {
    let vars = vars(&[("\u{e9}t\u{e9}", "x")]);
    assert_eq!(resolve_one("a $\u{e9}t\u{e9} b", &vars).unwrap(), "a x b");
    assert_eq!(resolve_one("${\u{e9}t\u{e9}}!", &vars).unwrap(), "x!");
}

#[test]
fn tokens_are_replaced_in_place() {
    let vars = vars(&[("A", "1"), ("AB", "2")]);
    assert_eq!(resolve_one("$A $AB", &vars).unwrap(), "1 2");
    assert_eq!(resolve_one("$AB $A", &vars).unwrap(), "2 1");
}

#[test]
fn substitution_follows_the_given_tokens() {
    let vars = vars(&[("A", "1")]);
    let tokens = vec![
        ("$A".to_string(), Some("A".to_string())),
        ("${B}".to_string(), Some("B".to_string())),
    ];
    assert_eq!(substitute_tokens("x$A y${B} $A", &tokens, &vars), "x1 y $A");
    assert_eq!(substitute_tokens("no tokens", &vec![], &vars), "no tokens");
    let missing = vec![("$Z".to_string(), None)];
    assert_eq!(substitute_tokens("abc", &missing, &vars), "abc");
}
