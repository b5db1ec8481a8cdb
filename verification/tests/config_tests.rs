use waybar_module_pomodoro::config::{parse_set_operations, Config};
use waybar_module_pomodoro::consts::{
    BREAK_ICON, LONG_BREAK_TIME, MINUTE, PAUSE_ICON, PLAY_ICON, SHORT_BREAK_TIME, WORK_ICON,
    WORK_TIME,
};
use waybar_module_pomodoro::message::Message;

#[test]
fn test_config_from_options_default() {
    let options = vec!["waybar-module-pomodoro_test".to_string()];
    let config = Config::from_options(options);

    assert_eq!(config.work_time, WORK_TIME);
    assert_eq!(config.short_break, SHORT_BREAK_TIME);
    assert_eq!(config.long_break, LONG_BREAK_TIME);
    assert!(!config.no_icons);
    assert!(!config.no_work_icons);
    assert_eq!(config.play_icon, PLAY_ICON.to_string());
    assert_eq!(config.pause_icon, PAUSE_ICON.to_string());
    assert_eq!(config.work_icon, WORK_ICON.to_string());
    assert_eq!(config.break_icon, BREAK_ICON.to_string());
    assert!(!config.autow);
    assert!(!config.autob);
    assert!(!config.persist);
    assert_eq!(config.binary_name, "waybar-module-pomodoro_test");
}

#[test]
fn test_config_from_options_with_custom_values() {
    let options = vec![
        "-w".to_string(),
        "25".to_string(),
        "-s".to_string(),
        "5".to_string(),
        "-l".to_string(),
        "15".to_string(),
        "-i".to_string(),
        "10".to_string(),
        "--play".to_string(),
        "‚ñ∂Ô∏è".to_string(),
        "--pause".to_string(),
        "‚è∏Ô∏è".to_string(),
        "--work-icon".to_string(),
        "üíª".to_string(),
        "--break-icon".to_string(),
        "‚òïÔ∏è".to_string(),
        "--autow".to_string(),
        "--persist".to_string(),
    ];
    let config = Config::from_options(options);

    assert_eq!(config.work_time, 25 * MINUTE);
    assert_eq!(config.short_break, 5 * MINUTE);
    assert_eq!(config.long_break, 15 * MINUTE);
    assert_eq!(config.intervals, 10);
    assert!(!config.no_icons);
    assert!(!config.no_work_icons);
    assert_eq!(config.play_icon, "‚ñ∂Ô∏è".to_string());
    assert_eq!(config.pause_icon, "‚è∏Ô∏è".to_string());
    assert_eq!(config.work_icon, "üíª".to_string());
    assert_eq!(config.break_icon, "‚òïÔ∏è".to_string());
    assert!(config.autow);
    assert!(!config.autob);
    assert!(config.persist);
}

#[test]
fn test_config_from_options_missing_values() {
    let options = vec![
        "-w".to_string(),
        "--shortbreak".to_string(),
        "5".to_string(),
        "--longbreak".to_string(),
        "15".to_string(),
    ];
    let config = Config::from_options(options);

    assert_eq!(config.work_time, WORK_TIME);
    assert_eq!(config.short_break, 5 * MINUTE);
    assert_eq!(config.long_break, 15 * MINUTE);
}

#[test]
fn test_config_from_options_invalid_values() {
    let options = vec![
        "-w".to_string(),
        "abc".to_string(),
        "--shortbreak".to_string(),
        "def".to_string(),
        "--longbreak".to_string(),
        "ghi".to_string(),
    ];
    let config = Config::from_options(options);

    assert_eq!(config.work_time, WORK_TIME);
    assert_eq!(config.short_break, SHORT_BREAK_TIME);
    assert_eq!(config.long_break, LONG_BREAK_TIME);
}

#[test]
fn test_config_from_options_no_icons() {
    let options = vec!["--no-icons".to_string()];
    let config = Config::from_options(options);

    assert!(config.no_icons);
}

#[test]
fn test_get_play_pause_icon_running() {
    let config = Config::default();
    let icon = config.get_play_pause_icon(true);

    assert_eq!(icon, PAUSE_ICON);
}

#[test]
fn test_get_play_pause_icon_not_running() {
    let config = Config::default();
    let icon = config.get_play_pause_icon(false);

    assert_eq!(icon, PLAY_ICON);
}

#[test]
fn test_get_play_pause_icon_no_icons() {
    let config = Config {
        no_icons: true,
        ..Default::default()
    };
    let icon = config.get_play_pause_icon(true);

    assert_eq!(icon, "");
}

#[test]
fn test_parse_set_operations_valid_values() {
    let args = vec![
        "set-work".to_string(),
        "10".to_string(),
        "set-short".to_string(),
        "5".to_string(),
    ];
    let operations = parse_set_operations(args);

    assert_eq!(operations.len(), 2);
    assert_eq!(operations[0], Message::new("set-work", 10));
    assert_eq!(operations[1], Message::new("set-short", 5));
}

#[test]
fn test_parse_set_operations_invalid_values() {
    let args = vec![
        "work".to_string(),
        "-10".to_string(),
        "break".to_string(),
        "-5".to_string(),
    ];
    let operations = parse_set_operations(args);

    assert_eq!(operations.len(), 0);
}

#[test]
fn test_parse_set_operations_missing_values() {
    let args = vec!["set-work".to_string()];
    let operations = parse_set_operations(args);

    assert_eq!(operations.len(), 0);
}
