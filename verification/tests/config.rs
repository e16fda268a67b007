use timetable_archive::config::Config;
use timetable_archive::errors::RunError;

fn all_values() -> [Option<String>; 8] {
    [
        Some("untis.example".to_string()),
        Some("my-school".to_string()),
        Some("collector".to_string()),
        Some("hunter2".to_string()),
        Some("pepper".to_string()),
        Some("/data/archive".to_string()),
        Some("/run/state.json".to_string()),
        Some("https://status.example/state.json".to_string()),
    ]
}

fn build(values: [Option<String>; 8]) -> Result<Config, RunError> {
    let [server, school, user, password, secret, path, state_path, state_check] = values;
    Config::from_values(server, school, user, password, secret, path, state_path, state_check)
}

#[test]
fn a_complete_configuration_is_accepted() {
    let config = build(all_values()).unwrap();
    assert_eq!(config.server, "untis.example");
    assert_eq!(config.school, "my-school");
    assert_eq!(config.user, "collector");
    assert_eq!(config.password, "hunter2");
    assert_eq!(config.secret, "pepper");
    assert_eq!(config.path, "/data/archive");
    assert_eq!(config.state_file_path, Some("/run/state.json".to_string()));
    assert_eq!(
        config.state_file_check,
        Some("https://status.example/state.json".to_string())
    );
}

#[test]
fn the_status_settings_are_optional() {
    let mut values = all_values();
    values[6] = None;
    values[7] = None;
    let config = build(values).unwrap();
    assert_eq!(config.state_file_path, None);
    assert_eq!(config.state_file_check, None);
}

#[test]
fn a_missing_required_setting_is_named() {
    let mut values = all_values();
    values[0] = None;
    assert_eq!(build(values).unwrap_err(), RunError::ConfigError("SERVER".to_string()));

    let mut values = all_values();
    values[4] = None;
    assert_eq!(build(values).unwrap_err(), RunError::ConfigError("SECRET".to_string()));

    let mut values = all_values();
    values[5] = None;
    assert_eq!(
        build(values).unwrap_err(),
        RunError::ConfigError("STORAGE_PATH".to_string())
    );
}

#[test]
fn the_first_missing_setting_wins() {
    let mut values = all_values();
    values[1] = None;
    values[3] = None;
    assert_eq!(build(values).unwrap_err(), RunError::ConfigError("SCHOOL".to_string()));
}

#[test]
fn errors_describe_their_stage() {
    let described = RunError::ConfigError("SERVER".to_string()).describe();
    assert_eq!(described, "missing configuration value: SERVER");
    assert_eq!(
        RunError::ArchiveCorruptError.describe(),
        "existing archive partition is unreadable"
    );
    assert_eq!(
        RunError::AuthError("bad credentials".to_string()).describe(),
        "login failed: bad credentials"
    );
}
