use libre99::config::{config_path, data_dir, home_dir, join, log_path, screenshot_dir, state_path, toml_escape, user_path_with};

#[test]
fn user_files_live_under_the_dot_dir() {
    // Every user-specific path shares the ~/.libre99 base.
    let home = Some("/home/ti");
    let base = data_dir(home).expect("a home directory is given");
    assert!(base.ends_with(".libre99"));
    assert_eq!(config_path(home).unwrap(), join(&base, "libre99.toml", std::path::MAIN_SEPARATOR));
    assert_eq!(log_path(home).unwrap(), join(&base, "libre99.log", std::path::MAIN_SEPARATOR));
    assert_eq!(state_path(home).unwrap(), join(&base, "resume.ti99", std::path::MAIN_SEPARATOR));
    assert_eq!(screenshot_dir(home).unwrap(), join(&base, "screenshots", std::path::MAIN_SEPARATOR));
}

#[test]
fn paths_join_with_one_separator() {
    assert_eq!(data_dir(Some("/home/ti")).unwrap(), "/home/ti/.libre99");
    assert_eq!(data_dir(Some("/home/ti/")).unwrap(), "/home/ti/.libre99");
    assert_eq!(config_path(Some("/h")).unwrap(), "/h/.libre99/libre99.toml");
    assert_eq!(data_dir(None), None);
    assert_eq!(state_path(None), None);
}

#[test]
fn toml_values_escape_backslashes_and_quotes() {
    assert_eq!(toml_escape(r"C:\Users\ti"), r"C:\\Users\\ti");
    assert_eq!(toml_escape("say \"hi\""), "say \\\"hi\\\"");
    assert_eq!(toml_escape("plain"), "plain");
}

#[test]
fn home_falls_back_to_the_user_profile() {
    assert_eq!(home_dir(Some("/home/ti"), Some("C:/Users/ti")), Some("/home/ti"));
    assert_eq!(home_dir(None, Some("C:/Users/ti")), Some("C:/Users/ti"));
    assert_eq!(home_dir(None, None), None);
    assert_eq!(data_dir(home_dir(None, Some("C:/Users/ti"))), Some(String::from("C:/Users/ti/.libre99")));
}

#[test]
fn paths_join_with_the_given_separator() {
    assert_eq!(join(r"C:\Users\ti", ".libre99", '\\'), r"C:\Users\ti\.libre99");
    assert_eq!(join(r"C:\Users\ti\", ".libre99", '\\'), r"C:\Users\ti\.libre99");
    assert_eq!(join("C:/Users/ti/", ".libre99", '\\'), r"C:/Users/ti/.libre99");
    assert_eq!(join("", "x", '/'), "x");
    assert_eq!(
        user_path_with(Some(r"C:\Users\ti"), Some("libre99.toml"), '\\'),
        Some(String::from(r"C:\Users\ti\.libre99\libre99.toml"))
    );
    assert_eq!(user_path_with(Some("/h"), None, '/'), Some(String::from("/h/.libre99")));
    assert_eq!(user_path_with(None, Some("x"), '/'), None);
}
