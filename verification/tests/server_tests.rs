use waybar_module_pomodoro::config::Config;
use waybar_module_pomodoro::consts::{LONG_BREAK_TIME, MINUTE, SHORT_BREAK_TIME, WORK_TIME};
use waybar_module_pomodoro::message::Message;
use waybar_module_pomodoro::server::{
    create_message, format_time, process_message, send_notification, socket_number,
};
use waybar_module_pomodoro::timer::{CycleType, Timer};

fn create_timer() -> Timer {
    Timer::new(WORK_TIME, SHORT_BREAK_TIME, LONG_BREAK_TIME, 0)
}

fn get_time(timer: &Timer, cycle: CycleType) -> u16 {
    match cycle {
        CycleType::Work => timer.times[0],
        CycleType::ShortBreak => timer.times[1],
        CycleType::LongBreak => timer.times[2],
    }
}

#[test]
fn test_send_notification_work() {
    send_notification(CycleType::Work);
}

#[test]
fn test_send_notification_short_break() {
    send_notification(CycleType::ShortBreak);
}

#[test]
fn test_send_notification_long_break() {
    send_notification(CycleType::LongBreak);
}

#[test]
fn test_format_time() {
    assert_eq!(format_time(300, 600), "05:00");
    assert_eq!(format_time(59, 60), "00:01");
    assert_eq!(format_time(0, 120), "02:00");
}

#[test]
fn test_format_time_with_hours() {
    assert_eq!(format_time(0, 3661), "01:01:01");
    assert_eq!(format_time(0, 3600), "01:00:00");
    assert_eq!(format_time(1, 3600), "59:59");
}

#[test]
fn test_create_message() {
    let message = "Pomodoro";
    let tooltip = "Tooltip";
    let class = vec!["Class".to_owned()];

    let result = create_message(message.to_string(), tooltip, &class);
    let expected = format!(
        "{{\"text\": \"{}\", \"tooltip\": \"{}\", \"class\": [\"{}\"], \"alt\": \"{}\"}}",
        message,
        tooltip,
        class.first().unwrap(),
        ""
    );
    assert!(result == expected);
}

#[test]
fn test_create_message_two_classes() {
    let class = vec!["work".to_owned(), "late".to_owned()];
    let result = create_message("t".to_string(), "tip", &class);
    assert_eq!(
        result,
        "{\"text\": \"t\", \"tooltip\": \"tip\", \"class\": [\"work\",\"late\"], \"alt\": \"\"}"
    );
}

#[test]
fn test_process_message_set_work() {
    let mut timer = create_timer();
    process_message(
        &mut timer,
        &Message::new("set-work", 30).encode(),
        &Config::default(),
    );
    assert_eq!(get_time(&timer, CycleType::Work), 30 * MINUTE);
}

#[test]
fn test_process_message_set_short() {
    let mut timer = create_timer();
    process_message(
        &mut timer,
        &Message::new("set-short", 3).encode(),
        &Config::default(),
    );
    assert_eq!(get_time(&timer, CycleType::ShortBreak), 3 * MINUTE);
}

#[test]
fn test_process_message_set_long() {
    let mut timer = create_timer();
    process_message(
        &mut timer,
        &Message::new("set-long", 10).encode(),
        &Config::default(),
    );
    assert_eq!(get_time(&timer, CycleType::LongBreak), 10 * MINUTE);
}

#[test]
fn test_process_message_start() {
    let mut timer = create_timer();
    process_message(&mut timer, "start", &Config::default());
    assert!(timer.running);
}

#[test]
fn test_process_message_stop() {
    let mut timer = create_timer();
    process_message(&mut timer, "stop", &Config::default());
    assert!(!timer.running);
}

#[test]
fn test_process_message_skip() {
    let mut timer = create_timer();
    timer.current_index = timer.times.len() - 1;
    let config = Config::default();
    timer.iterations = config.intervals;
    process_message(&mut timer, "skip", &config);
    assert!(timer.session_completed == 1);
}

#[test]
fn test_process_message_toggle() {
    let mut timer = create_timer();
    process_message(&mut timer, "toggle", &Config::default());
    assert!(timer.running);
    process_message(&mut timer, "toggle", &Config::default());
    assert!(!timer.running);
}

#[test]
fn test_process_message_reset() {
    let mut timer = create_timer();
    timer.current_index = 1;
    timer.elapsed_time = 17;
    timer.running = true;
    process_message(&mut timer, "reset", &Config::default());
    assert_eq!(timer.current_index, 0);
    assert_eq!(timer.elapsed_time, 0);
    assert!(!timer.running);
}

#[test]
fn test_process_message_unknown_is_dropped() {
    let mut timer = create_timer();
    process_message(&mut timer, "launch", &Config::default());
    assert_eq!(timer.times, [WORK_TIME, SHORT_BREAK_TIME, LONG_BREAK_TIME]);
    assert!(!timer.running);
}

#[test]
fn test_process_message_set_work_out_of_range() {
    let mut timer = create_timer();
    // 1093 minutes would not fit the stored seconds, so the message is dropped
    process_message(&mut timer, "[set-work;1093]", &Config::default());
    assert_eq!(get_time(&timer, CycleType::Work), WORK_TIME);

    process_message(&mut timer, "[set-work;1092]", &Config::default());
    assert_eq!(get_time(&timer, CycleType::Work), 1092 * 60);
}

#[test]
fn test_socket_number() {
    assert_eq!(socket_number("/tmp/waybar-module-pomodoro0.socket"), 0);
    assert_eq!(socket_number("/tmp/waybar-module-pomodoro12.socket"), 12);
    assert_eq!(socket_number("abc1x2y3"), 123);
    assert_eq!(socket_number("no-digits"), 0);
}
