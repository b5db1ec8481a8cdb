use vstd::prelude::*;

verus! {

/// Tick period of the engine loop, in milliseconds.
pub const SLEEP_TIME: u16 = 100;

/// Seconds in a minute.
pub const MINUTE: u16 = 60;

/// Seconds in an hour.
pub const HOUR: u16 = 3600;

/// Default number of work cycles before a long break.
pub const MAX_ITERATIONS: u8 = 4;

/// Default work cycle length, in seconds.
pub const WORK_TIME: u16 = 25 * MINUTE;

/// Default short break length, in seconds.
pub const SHORT_BREAK_TIME: u16 = 5 * MINUTE;

/// Default long break length, in seconds.
pub const LONG_BREAK_TIME: u16 = 15 * MINUTE;

/// Default icon shown while the timer is paused.
pub const PLAY_ICON: &'static str = "▶";

/// Default icon shown while the timer is running.
pub const PAUSE_ICON: &'static str = "⏸";

/// Default icon shown during a work cycle.
pub const WORK_ICON: &'static str = "󰔟";

/// Default icon shown during a break cycle.
pub const BREAK_ICON: &'static str = "";

} // verus!
