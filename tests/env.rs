use rollcron::env::{is_white_space, parse_env};

fn get(vars: &[(String, String)], key: &str) -> Option<String> {
    vars.iter().find(|(k, _)| k == key).map(|(_, v)| v.clone())
}

#[test]
fn test_load_env_file_exists() {
    let vars = parse_env("FOO=bar\nBAZ=qux");
    assert_eq!(get(&vars, "FOO"), Some("bar".to_string()));
    assert_eq!(get(&vars, "BAZ"), Some("qux".to_string()));
}

#[test]
fn test_load_env_file_missing() {
    let vars = parse_env("");
    assert!(vars.is_empty());
}

#[test]
fn test_load_env_with_quotes() {
    let vars = parse_env("QUOTED=\"hello world\"\nSINGLE='test'");
    assert_eq!(get(&vars, "QUOTED"), Some("hello world".to_string()));
    assert_eq!(get(&vars, "SINGLE"), Some("test".to_string()));
}

#[test]
fn test_load_env_with_comments() {
    let vars = parse_env("# Comment\nKEY=value\n# Another comment\nFOO=bar");
    assert_eq!(vars.len(), 2);
    assert_eq!(get(&vars, "KEY"), Some("value".to_string()));
    assert_eq!(get(&vars, "FOO"), Some("bar".to_string()));
}

#[test]
fn test_load_env_with_empty_lines() {
    let vars = parse_env("KEY1=value1\n\nKEY2=value2\n\n");
    assert_eq!(vars.len(), 2);
    assert_eq!(get(&vars, "KEY1"), Some("value1".to_string()));
    assert_eq!(get(&vars, "KEY2"), Some("value2".to_string()));
}

#[test]
fn test_load_env_with_spaces() {
    let vars = parse_env("KEY = value with spaces");
    assert_eq!(get(&vars, "KEY"), Some("value with spaces".to_string()));
}

#[test]
fn env_later_assignment_wins_in_first_position() {
    let vars = parse_env("A=1\nB=2\nA=3\r\nno equals sign\n=empty key\nC=a=b\nD=\"\nE='x\"");
    assert_eq!(
        vars,
        vec![
            ("A".to_string(), "3".to_string()),
            ("B".to_string(), "2".to_string()),
            ("".to_string(), "empty key".to_string()),
            ("C".to_string(), "a=b".to_string()),
            ("D".to_string(), "\"".to_string()),
            ("E".to_string(), "'x\"".to_string()),
        ]
    );
}

#[test]
fn white_space_matches_std() {
    for c in [' ', '\t', '\n', '\r', '\u{0b}', '\u{0c}', '\u{85}', '\u{a0}', '\u{2003}', '\u{3000}', 'a', '=', '#', '\u{200b}'] {
        assert_eq!(is_white_space(c), c.is_whitespace());
    }
}
