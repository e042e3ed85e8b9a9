use ccline::config::{config_file_path, Config, DEFAULT_FORMAT};

#[test]
fn default_format_matches_shell_basic_template() {
    let c = Config::default();
    for needle in [
        "$model",
        "$cost",
        "$session",
        "$session_reset",
        "$weekly",
        "$weekly_reset",
        "$context_bar",
        "$git_branch_sep",
    ] {
        assert!(
            c.format.contains(needle),
            "default format missing {needle}: {:?}",
            c.format
        );
    }
}

#[test]
fn from_format_field_overrides_format() {
    let c = Config::from_format_field(Some("$model — $cost".to_string()));
    assert_eq!(c.format, "$model — $cost");
}

#[test]
fn from_format_field_missing_falls_back_to_default() {
    let c = Config::from_format_field(None);
    assert_eq!(c.format, DEFAULT_FORMAT);
}

#[test]
fn config_path_prefers_the_explicit_file() {
    let p = config_file_path(Some("/etc/my.toml".into()), Some("/xdg".into()), Some("/home/u".into()));
    assert_eq!(p, Some(("/etc/my.toml".to_string(), true)));
}

#[test]
fn config_path_falls_back_to_xdg_then_home() {
    let p = config_file_path(Some(String::new()), Some("/xdg".into()), Some("/home/u".into()));
    assert_eq!(p, Some(("/xdg/ccline/config.toml".to_string(), false)));
    let p = config_file_path(None, Some(String::new()), Some("/home/u".into()));
    assert_eq!(p, Some(("/home/u/.config/ccline/config.toml".to_string(), false)));
    let p = config_file_path(None, None, Some("/home/u/".into()));
    assert_eq!(p, Some(("/home/u/.config/ccline/config.toml".to_string(), false)));
}

#[test]
fn config_path_is_none_without_any_home() {
    assert_eq!(config_file_path(None, Some(String::new()), None), None);
    assert_eq!(config_file_path(Some(String::new()), None, None), None);
}
