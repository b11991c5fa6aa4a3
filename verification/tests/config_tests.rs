use minigrep::Config;
use minigrep::ConfigError;

fn args(list: &[&str]) -> Vec<String> {
    list.iter().map(|s| s.to_string()).collect()
}

#[test]
fn build_with_zero_arguments_reports_missing_query() {
    let result = Config::build(args(&["prog"]), None);
    assert!(matches!(result, Err(ConfigError::MissingQuery)));
}

#[test]
fn build_with_empty_argument_list_reports_missing_query() {
    let result = Config::build(Vec::new(), None);
    assert!(matches!(result, Err(ConfigError::MissingQuery)));
}

#[test]
fn build_with_one_argument_reports_missing_file_path() {
    let result = Config::build(args(&["prog", "query"]), None);
    assert!(matches!(result, Err(ConfigError::MissingFilePath)));
}

#[test]
fn build_with_two_arguments_succeeds() {
    let config = Config::build(args(&["prog", "needle", "notes.txt"]), None).unwrap();
    assert_eq!("needle", config.query);
    assert_eq!("notes.txt", config.file_path);
    assert!(!config.ignore_case);
}

#[test]
fn extra_arguments_are_ignored() {
    let config =
        Config::build(args(&["prog", "needle", "notes.txt", "extra", "more"]), None).unwrap();
    assert_eq!("needle", config.query);
    assert_eq!("notes.txt", config.file_path);
}

#[test]
fn env_flag_presence_turns_on_ignore_case() {
    let config =
        Config::build(args(&["prog", "q", "f"]), Some("anything".to_string())).unwrap();
    assert!(config.ignore_case);
}

#[test]
fn env_flag_with_empty_value_still_counts() {
    let config = Config::build(args(&["prog", "q", "f"]), Some(String::new())).unwrap();
    assert!(config.ignore_case);
}

#[test]
fn absent_env_flag_leaves_case_sensitive() {
    let config = Config::build(args(&["prog", "q", "f"]), None).unwrap();
    assert!(!config.ignore_case);
}

#[test]
fn error_messages_match_the_cli_wording() {
    assert_eq!("Didn't get a query string", ConfigError::MissingQuery.message());
    assert_eq!("Didn't get a file path", ConfigError::MissingFilePath.message());
}
