use vstd::prelude::*;

use crate::config::Config;
use crate::timer::Timer;

verus! {

/// Does the durations triple equal the configured one, position by position?
pub open spec fn spec_match_timers(config: Config, times: Seq<u16>) -> bool {
    config.work_time == times[0] && config.short_break == times[1] && config.long_break
        == times[2]
}

/// Compares a cached durations triple against the configured one.
pub fn match_timers(config: &Config, times: &[u16; 3]) -> (r: bool)
    ensures
        r == spec_match_timers(*config, times@),
{
    let work_time: u16 = times[0];
    let short_break: u16 = times[1];
    let long_break: u16 = times[2];

    if config.work_time != work_time || config.short_break != short_break || config.long_break
        != long_break {
        return false;
    }

    true
}

/// Applies a cached snapshot to `state` only when the snapshot's durations
/// exactly equal the configured ones; on any mismatch the state is left
/// untouched, and either way the call succeeds.
pub fn restore(state: &mut Timer, config: &Config, cached: &Timer)
    requires
        old(state).well_formed(),
        cached.well_formed(),
        cached.intervals == old(state).intervals,
    ensures
        spec_match_timers(*config, cached.times@) ==> *final(state) == (Timer {
            current_index: cached.current_index,
            elapsed_millis: cached.elapsed_millis,
            elapsed_time: cached.elapsed_time,
            times: cached.times,
            iterations: cached.iterations,
            session_completed: cached.session_completed,
            ..*old(state)
        }),
        !spec_match_timers(*config, cached.times@) ==> *final(state) == *old(state),
        final(state).well_formed(),
{
    if match_timers(config, &cached.times) {
        state.current_index = cached.current_index;
        state.elapsed_millis = cached.elapsed_millis;
        state.elapsed_time = cached.elapsed_time;
        state.times = cached.times;
        state.iterations = cached.iterations;
        state.session_completed = cached.session_completed;
    }
}

} // verus!
