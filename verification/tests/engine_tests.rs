use waybar_module_pomodoro::cache::{match_timers, restore};
use waybar_module_pomodoro::config::Config;
use waybar_module_pomodoro::consts::{PLAY_ICON, WORK_ICON};
use waybar_module_pomodoro::helper::trim_whitespace;
use waybar_module_pomodoro::server::engine_tick;
use waybar_module_pomodoro::text::contains_str;
use waybar_module_pomodoro::timer::Timer;

fn drive_cycle_to_completion(timer: &mut Timer, config: &Config) {
    while timer.elapsed_time < timer.times[timer.current_index] {
        timer.increment_time();
    }
    timer.update_state(config);
}

#[test]
fn test_work_cycles_reach_long_break() {
    // durations (1500, 300, 900) seconds, four intervals: after three
    // work/short-break round trips the fourth work cycle moves straight to
    // the long break
    let mut timer = Timer::new(1500, 300, 900, 1);
    let config = Config::default();

    for _ in 0..3 {
        drive_cycle_to_completion(&mut timer, &config); // work -> short break
        assert_eq!(timer.current_index, 1);
        drive_cycle_to_completion(&mut timer, &config); // short break -> work
        assert_eq!(timer.current_index, 0);
    }
    assert_eq!(timer.iterations, 3);

    drive_cycle_to_completion(&mut timer, &config);
    assert_eq!(timer.current_index, 2);
    assert_eq!(timer.iterations, 4);
    assert_eq!(timer.session_completed, 0);
}

#[test]
fn test_long_break_completion_counts_session() {
    // scenario: durations (1500, 300, 900), four intervals; after four full
    // work cycles exactly one long break has run and one session is complete
    let mut timer = Timer::new(1500, 300, 900, 1);
    let config = Config::default();

    let mut long_breaks = 0;
    while timer.session_completed == 0 {
        drive_cycle_to_completion(&mut timer, &config);
        if timer.current_index == 2 {
            long_breaks += 1;
        }
    }

    assert_eq!(long_breaks, 1);
    assert_eq!(timer.session_completed, 1);
    assert_eq!(timer.current_index, 0);
    assert_eq!(timer.iterations, 0);
}

#[test]
fn test_tick_accumulation() {
    // 25 ticks of 100 ms make 2 whole seconds and a 500 ms remainder
    let mut timer = Timer::new(1500, 300, 900, 1);
    for _ in 0..25 {
        timer.increment_time();
    }
    assert_eq!(timer.elapsed_time, 2);
    assert_eq!(timer.elapsed_millis, 500);
}

#[test]
fn test_set_work_message_on_idle_engine() {
    // scenario: "[set-work;30]" reaches an idle engine at the work cycle
    let mut timer = Timer::new(1500, 300, 900, 1);
    let config = Config::default();

    engine_tick(&mut timer, &config, Some("[set-work;30]"));

    assert_eq!(timer.times[0], 1800);
    assert!(!timer.running);
    assert_eq!(timer.elapsed_time, 0);
}

#[test]
fn test_engine_tick_status_line() {
    let mut timer = Timer::new(1500, 300, 900, 1);
    let config = Config::default();

    let line = engine_tick(&mut timer, &config, None);

    let expected = format!(
        "{{\"text\": \"{} 25:00 {}\", \"tooltip\": \"0 pomodoros completed this session\", \"class\": [\"\"], \"alt\": \"\"}}",
        PLAY_ICON, WORK_ICON
    );
    assert_eq!(line, expected);
}

#[test]
fn test_engine_tick_advances_when_running() {
    let mut timer = Timer::new(1500, 300, 900, 1);
    let config = Config::default();

    engine_tick(&mut timer, &config, Some("start"));
    assert!(timer.running);
    assert_eq!(timer.elapsed_millis, 100);

    engine_tick(&mut timer, &config, None);
    assert_eq!(timer.elapsed_millis, 200);
}

#[test]
fn test_tooltip_singular_plural() {
    let mut timer = Timer::new(1500, 300, 900, 1);
    let config = Config::default();
    timer.session_completed = 1;
    timer.elapsed_millis = 100;

    let line = engine_tick(&mut timer, &config, None);
    assert!(contains_str(&line, "1 pomodoro completed this session"));
    assert!(!contains_str(&line, "pomodoros"));
}

#[test]
fn test_exit_message_detection() {
    // the accept loop shuts down on any payload that carries "exit"
    assert!(contains_str("exit", "exit"));
    assert!(contains_str("please exit now", "exit"));
    assert!(!contains_str("exi", "exit"));
    assert!(!contains_str("", "exit"));
}

#[test]
fn test_trim_whitespace() {
    assert_eq!(trim_whitespace("  a   b  "), "a b");
    assert_eq!(trim_whitespace(""), "");
    assert_eq!(trim_whitespace("   "), "");
    assert_eq!(trim_whitespace("one"), "one");
    assert_eq!(trim_whitespace("\u{25B6} 25:00 \u{00A0}"), "\u{25B6} 25:00");
}

#[test]
fn test_match_timers() {
    let mut config = Config::default();
    config.work_time = 1500;
    config.short_break = 300;
    config.long_break = 900;

    assert!(match_timers(&config, &[1500, 300, 900]));
    assert!(!match_timers(&config, &[1501, 300, 900]));
    assert!(!match_timers(&config, &[1500, 301, 900]));
    assert!(!match_timers(&config, &[1500, 300, 901]));
}

#[test]
fn test_restore_applies_matching_snapshot() {
    let mut config = Config::default();
    config.work_time = 1500;
    config.short_break = 300;
    config.long_break = 900;

    let mut state = Timer::new(1500, 300, 900, 0);
    let mut cached = Timer::new(1500, 300, 900, 0);
    cached.elapsed_time = 50;
    cached.elapsed_millis = 345;
    cached.iterations = 2;
    cached.session_completed = 8;

    restore(&mut state, &config, &cached);

    assert_eq!(state.elapsed_time, 50);
    assert_eq!(state.elapsed_millis, 345);
    assert_eq!(state.iterations, 2);
    assert_eq!(state.session_completed, 8);
    assert!(!state.running);
}

#[test]
fn test_restore_ignores_mismatched_snapshot() {
    // a snapshot whose durations differ in any position leaves the state as
    // it was
    let mut config = Config::default();
    config.work_time = 1500;
    config.short_break = 300;
    config.long_break = 900;

    let mismatches = [[1800, 300, 900], [1500, 600, 900], [1500, 300, 1200]];
    for times in mismatches {
        let mut state = Timer::new(1500, 300, 900, 0);
        let mut cached = Timer::new(times[0], times[1], times[2], 0);
        cached.elapsed_time = 50;
        cached.iterations = 2;
        cached.session_completed = 8;

        restore(&mut state, &config, &cached);

        assert_eq!(state.elapsed_time, 0);
        assert_eq!(state.elapsed_millis, 0);
        assert_eq!(state.iterations, 0);
        assert_eq!(state.session_completed, 0);
    }
}
