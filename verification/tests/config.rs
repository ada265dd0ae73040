use vrac::config::{invalid_config, lines_setting, parse_config, ConfigError};

#[test]
fn loads_comments_and_an_explicit_lines_value() {
    assert_eq!(parse_config("# Vrac presentation\nlines = false # compact\n"), Ok(false));
}

#[test]
fn reports_the_path_and_line_of_invalid_config() {
    let path = "/home/someone/.config/vrac/config.toml";
    let error = parse_config("lines = true\ntheme = dark\n").unwrap_err();
    let message = invalid_config(path, error.line, &error.message);

    assert!(message.contains(path));
    assert!(message.contains("line 2"));
    assert!(message.contains("unknown setting `theme`"));
    assert_eq!(
        message,
        "invalid config /home/someone/.config/vrac/config.toml at line 2: unknown setting `theme`"
    );
}

#[test]
fn absent_config_uses_lines_without_creating_a_file() {
    assert_eq!(parse_config(""), Ok(true));
    assert_eq!(parse_config("\n  # only a comment\n\n"), Ok(true));
}

#[test]
fn set_lines_creates_and_atomically_replaces_the_config() {
    assert_eq!(lines_setting(false), "lines = false\n");
    assert_eq!(parse_config(&lines_setting(false)), Ok(false));
    assert_eq!(lines_setting(true), "lines = true\n");
    assert_eq!(parse_config(&lines_setting(true)), Ok(true));
}

#[test]
fn each_invalid_line_has_its_message() {
    let error = |line: usize, message: &str| Err(ConfigError { line, message: message.into() });
    assert_eq!(parse_config("lines true\n"), error(1, "expected `name = value`"));
    assert_eq!(parse_config("lines = true\nlines = false\n"), error(2, "`lines` is configured more than once"));
    assert_eq!(parse_config("\n\nlines = maybe\n"), error(3, "`lines` must be `true` or `false`"));
    assert_eq!(parse_config("  lines=false  \r\n"), Ok(false));
}
