use pingmon::config::{
    hosts_from_config, interval_setting, parse_number, split_hosts, split_lines, timeout_setting,
    ConfigError,
};

#[test]
fn no_host_source_is_an_error() {
    assert_eq!(hosts_from_config(None, None), Err(ConfigError::MissingHosts));
}

#[test]
fn inline_list_wins_over_file() {
    assert_eq!(
        hosts_from_config(Some("a b"), Some("c\nd\n")),
        Ok(vec!["a".to_string(), "b".to_string()])
    );
    assert_eq!(
        hosts_from_config(None, Some("c\nd\n")),
        Ok(vec!["c".to_string(), "d".to_string()])
    );
}

#[test]
fn split_inline_hosts() {
    assert_eq!(split_hosts("  one\ttwo \n three  "), vec!["one", "two", "three"]);
    assert!(split_hosts("").is_empty());
    assert!(split_hosts(" \t ").is_empty());
    assert_eq!(split_hosts("x\u{3000}y"), vec!["x", "y"]);
}

#[test]
fn split_file_lines() {
    assert_eq!(split_lines("a\nb\r\nc"), vec!["a", "b", "c"]);
    assert_eq!(split_lines("a\n\nb\n"), vec!["a", "", "b"]);
    assert!(split_lines("").is_empty());
    assert_eq!(split_lines("z\r"), vec!["z\r"]);
}

#[test]
fn numbers() {
    assert_eq!(parse_number("42", 100), Some(42));
    assert_eq!(parse_number("+7", 100), Some(7));
    assert_eq!(parse_number("101", 100), None);
    assert_eq!(parse_number("", 100), None);
    assert_eq!(parse_number("+", 100), None);
    assert_eq!(parse_number("-1", 100), None);
    assert_eq!(parse_number("1a", 100), None);
    assert_eq!(parse_number("18446744073709551615", u64::MAX), Some(u64::MAX));
    assert_eq!(parse_number("18446744073709551616", u64::MAX), None);
}

#[test]
fn defaults_and_overrides() {
    assert_eq!(interval_setting(None), Ok(10));
    assert_eq!(timeout_setting(None), Ok(1));
    assert_eq!(interval_setting(Some("30")), Ok(30));
    assert_eq!(timeout_setting(Some("65535")), Ok(65535));
    assert_eq!(timeout_setting(Some("65536")), Err(ConfigError::BadTimeout));
    assert_eq!(interval_setting(Some("ten")), Err(ConfigError::BadInterval));
}
