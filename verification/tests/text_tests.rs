use nuvix::config::{default_project_name, local_config_path, ProjectConfig};
use nuvix::paths::{resolve_dir, resolve_path};
use nuvix::state::{state_path, CliState};
use nuvix::strmap::{compare_chars, Order, StrMap};
use nuvix::text::{
    contains_str, next_line, normalize_identifier, split_once_char, strip_prefix, strip_suffix,
    trim, u64_to_string,
};

#[test]
fn normalize_identifier_examples() {
    assert_eq!(normalize_identifier("  Hello World! "), "hello_world");
    assert_eq!(normalize_identifier("a__b"), "a_b");
    assert_eq!(normalize_identifier("_x_"), "x");
    assert_eq!(normalize_identifier("ÄBC"), "bc");
    assert_eq!(normalize_identifier(""), "");
}

#[test]
fn normalize_identifier_is_idempotent_on_examples() {
    for s in ["Hello World", "a--b__c", " x ", "ÄÖ-ü 1"] {
        let once = normalize_identifier(s);
        assert_eq!(normalize_identifier(&once), once);
    }
}

#[test]
fn trim_and_split() {
    assert_eq!(trim("\t a b \n"), "a b");
    assert_eq!(split_once_char("k=v=w", '='), ("k".to_string(), Some("v=w".to_string())));
    assert_eq!(split_once_char("kv", '='), ("kv".to_string(), None));
    assert_eq!(strip_prefix("nc_session=x", "nc_session="), Some("x".to_string()));
    assert_eq!(strip_suffix("a.sql", ".sql"), Some("a".to_string()));
    assert_eq!(strip_suffix("a.txt", ".sql"), None);
    assert!(contains_str("create index x", "index"));
    assert!(!contains_str("abc", "abcd"));
    assert!(contains_str("abc", ""));
}

#[test]
fn next_line_follows_str_lines() {
    let mut rest = "a\r\nb\n\nc\r".to_string();
    let mut lines = Vec::new();
    while !rest.is_empty() {
        let (line, tail) = next_line(&rest);
        lines.push(line);
        rest = tail;
    }
    let expected: Vec<String> = "a\r\nb\n\nc\r".lines().map(|l| l.to_string()).collect();
    assert_eq!(lines, expected);
}

#[test]
fn decimal_text() {
    assert_eq!(u64_to_string(0), "0");
    assert_eq!(u64_to_string(6379), "6379");
    assert_eq!(u64_to_string(u64::MAX), u64::MAX.to_string());
}

#[test]
fn string_map_keeps_keys_sorted() {
    let mut m = StrMap::new();
    m.insert("b".to_string(), 2);
    m.insert("a".to_string(), 1);
    m.insert("c".to_string(), 3);
    m.insert("a".to_string(), 10);
    assert_eq!(m.len(), 3);
    assert_eq!(m.key_list(), vec!["a", "b", "c"]);
    assert_eq!(m.get("a"), Some(&10));
    assert_eq!(m.remove("b"), Some(2));
    assert!(!m.contains_key("b"));
    assert_eq!(m.remove("b"), None);
    assert_eq!(
        compare_chars(&"ab".chars().collect(), &"b".chars().collect()),
        Order::Less
    );
}

#[test]
fn paths_and_project_files() {
    assert_eq!(resolve_path("/p", "d".to_string()), "/p/d");
    assert_eq!(resolve_path("/p", "/abs/d".to_string()), "/abs/d");
    assert_eq!(resolve_dir("/p", &None, "x/y"), "/p/x/y");
    assert_eq!(resolve_dir("/p", &Some("z".to_string()), "x/y"), "/p/z");
    assert_eq!(state_path("/p"), "/p/.nuvix/state.json");
    assert_eq!(local_config_path("/p"), "/p/nuvix/config.toml");
    assert!(!CliState::default().local_running);
}

#[test]
fn project_config_defaults() {
    let cfg = ProjectConfig::new("demo".to_string());
    assert_eq!((cfg.local.api_port, cfg.local.db_port), (54321, 54322));
    let fresh = ProjectConfig::load_or_new("/work/my-app", None);
    assert_eq!(fresh.project.name, "my-app");
    let root = ProjectConfig::load_or_new("/", None);
    assert_eq!(root.project.name, "nuvix-project");
    assert_eq!(default_project_name(Some("x".to_string()), "/work/y"), "x");
    let mut linked = ProjectConfig::new("demo".to_string());
    linked.link_remote("https://r".to_string(), "tok".to_string());
    assert_eq!(linked.remote.as_ref().unwrap().url, "https://r");
}

#[test]
fn normalized_identifiers_have_their_form() {
    for v in ["  Users ", "ÄBC-Déf", "KELVIN\u{212A}", "__a__b__", "***", "Mixed Case 42"] {
        let n = normalize_identifier(v);
        assert!(n.chars().all(|c| c.is_ascii_lowercase() || c.is_ascii_digit() || c == '_'));
        assert!(!n.starts_with('_') && !n.ends_with('_') && !n.contains("__"));
        assert_eq!(normalize_identifier(&n), n);
    }
    assert_eq!(normalize_identifier("  Users "), normalize_identifier("users"));
    assert_eq!(normalize_identifier("***"), "");
}
