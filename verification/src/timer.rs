use vstd::prelude::*;

use crate::config::Config;
use crate::consts::{MAX_ITERATIONS, SLEEP_TIME};
use crate::server::send_notification;

verus! {

/// The three kinds of cycle the timer moves through.
pub enum CycleType {
    Work,
    ShortBreak,
    LongBreak,
}

/// The position of a cycle kind inside `Timer::times`.
pub open spec fn cycle_position(cycle: CycleType) -> int {
    match cycle {
        CycleType::Work => 0,
        CycleType::ShortBreak => 1,
        CycleType::LongBreak => 2,
    }
}

/// The durations triple with position `pos` overwritten by `v`.
pub open spec fn times_with(times: [u16; 3], pos: int, v: u16) -> [u16; 3] {
    [
        if pos == 0 {
            v
        } else {
            times[0]
        },
        if pos == 1 {
            v
        } else {
            times[1]
        },
        if pos == 2 {
            v
        } else {
            times[2]
        },
    ]
}

/// The cycle state machine: durations, elapsed time, and session counters.
pub struct Timer {
    /// Which cycle is active: 0 work, 1 short break, 2 long break.
    pub current_index: usize,
    /// Milliseconds accumulated towards the next elapsed second.
    pub elapsed_millis: u16,
    /// Seconds elapsed in the active cycle.
    pub elapsed_time: u16,
    /// Seconds per cycle kind.
    pub times: [u16; 3],
    /// Completed work cycles since the last long break.
    pub iterations: u8,
    /// Work cycles needed before a long break is owed.
    pub intervals: u8,
    /// Full work-to-long-break sessions finished.
    pub session_completed: u8,
    /// Whether elapsed time currently advances.
    pub running: bool,
    /// Ordinal of this instance among sibling sockets; 0 sends notifications.
    pub socket_nr: i32,
}

impl Timer {
    /// The structural invariant every engine-reachable timer satisfies.
    pub open spec fn well_formed(self) -> bool {
        &&& self.current_index < 3
        &&& self.elapsed_millis < 1000
        &&& 1 <= self.intervals
        &&& self.iterations <= self.intervals
        &&& (self.current_index == 0 ==> self.iterations < self.intervals)
        &&& (self.current_index == 1 ==> self.iterations + 2 <= self.intervals)
        &&& (self.current_index == 2 ==> self.iterations == self.intervals)
    }

    /// Runtime check of `well_formed`.
    pub fn is_well_formed(&self) -> (r: bool)
        ensures
            r == self.well_formed(),
    {
        self.current_index < 3 && self.elapsed_millis < 1000 && 1 <= self.intervals
            && self.iterations <= self.intervals && (self.current_index != 0 || self.iterations
            < self.intervals) && (self.current_index != 1 || self.iterations as u16 + 2
            <= self.intervals as u16) && (self.current_index != 2 || self.iterations
            == self.intervals)
    }

    /// A fresh timer: work cycle active, counters zeroed, stopped.
    pub fn new(work_time: u16, short_break: u16, long_break: u16, socket_nr: i32) -> (t: Timer)
        ensures
            t.current_index == 0,
            t.elapsed_millis == 0,
            t.elapsed_time == 0,
            t.times@ == seq![work_time, short_break, long_break],
            t.iterations == 0,
            t.intervals == MAX_ITERATIONS,
            t.session_completed == 0,
            t.running == false,
            t.socket_nr == socket_nr,
            t.well_formed(),
    {
        let t = Timer {
            current_index: 0,
            elapsed_millis: 0,
            elapsed_time: 0,
            times: [work_time, short_break, long_break],
            iterations: 0,
            intervals: MAX_ITERATIONS,
            session_completed: 0,
            running: false,
            socket_nr,
        };
        proof {
            assert(t.times@ =~= seq![work_time, short_break, long_break]);
        }
        t
    }

    /// Reconfigures how many work cycles precede a long break. Applies only
    /// to a timer that has not left its first work cycle.
    pub fn set_intervals(&mut self, intervals: u8)
        requires
            old(self).well_formed(),
            old(self).current_index == 0,
            old(self).iterations == 0,
            intervals >= 1,
        ensures
            *final(self) == (Timer { intervals, ..*old(self) }),
            final(self).well_formed(),
    {
        self.intervals = intervals;
    }

    /// What `reset` leaves behind: the work cycle selected, elapsed time and
    /// iterations zeroed, the timer stopped; durations and finished sessions kept.
    pub open spec fn spec_reset(self) -> Timer {
        Timer {
            current_index: 0,
            elapsed_time: 0,
            elapsed_millis: 0,
            iterations: 0,
            running: false,
            ..self
        }
    }

    /// Returns the timer to the start of a fresh work cycle.
    pub fn reset(&mut self)
        ensures
            *final(self) == old(self).spec_reset(),
            old(self).well_formed() ==> final(self).well_formed(),
    {
        self.current_index = 0;
        self.elapsed_time = 0;
        self.elapsed_millis = 0;
        self.iterations = 0;
        self.running = false;
    }

    /// Is a break cycle (short or long) active?
    pub fn is_break(&self) -> (r: bool)
        ensures
            r == (self.current_index != 0),
    {
        self.current_index != 0
    }

    /// What `set_time` leaves behind: a reset timer whose targeted duration
    /// entry holds `input` minutes, the other entries untouched.
    pub open spec fn spec_set_time(self, cycle: CycleType, input: u16) -> Timer {
        Timer {
            times: times_with(self.times, cycle_position(cycle), (input * 60) as u16),
            ..self.spec_reset()
        }
    }

    /// Overwrites one cycle duration with `input` minutes, resetting the timer.
    pub fn set_time(&mut self, cycle: CycleType, input: u16)
        requires
            input * 60 <= u16::MAX,
        ensures
            *final(self) == old(self).spec_set_time(cycle, input),
            final(self).current_index == 0,
            final(self).elapsed_time == 0,
            final(self).elapsed_millis == 0,
            final(self).iterations == 0,
            final(self).running == false,
            final(self).times@ == old(self).times@.update(cycle_position(cycle), (input * 60) as u16),
            final(self).intervals == old(self).intervals,
            final(self).session_completed == old(self).session_completed,
            final(self).socket_nr == old(self).socket_nr,
            old(self).well_formed() ==> final(self).well_formed(),
    {
        self.reset();
        match cycle {
            CycleType::Work => self.times[0] = input * 60,
            CycleType::ShortBreak => self.times[1] = input * 60,
            CycleType::LongBreak => self.times[2] = input * 60,
        }
        proof {
            assert(final(self).times@ =~= old(self).times@.update(
                cycle_position(cycle),
                (input * 60) as u16,
            ));
            assert(final(self).times =~= times_with(
                old(self).times,
                cycle_position(cycle),
                (input * 60) as u16,
            ));
        }
    }

    /// The display class of the current state: empty before the first start,
    /// `pause` when stopped after having run, else `work` or `break`.
    pub open spec fn spec_class(self) -> Seq<char> {
        if self.elapsed_millis == 0 && self.elapsed_time == 0 && self.iterations == 0
            && self.session_completed == 0 {
            ""@
        } else if !self.running {
            "pause"@
        } else if self.current_index == 0 {
            "work"@
        } else {
            "break"@
        }
    }

    /// The display class derived from the current state alone.
    pub fn get_class(&self) -> (r: String)
        ensures
            r@ == self.spec_class(),
    {
        if self.elapsed_millis == 0 && self.elapsed_time == 0 && self.iterations == 0
            && self.session_completed == 0 {
            "".to_owned()
        } else if !self.running {
            "pause".to_owned()
        } else if self.current_index == 0 {
            "work".to_owned()
        } else {
            "break".to_owned()
        }
    }

    /// Has the active cycle used up exactly its duration?
    pub open spec fn fires(self) -> bool {
        self.elapsed_time == self.times@[self.current_index as int]
    }

    /// The single transition step taken when a cycle completes: a long break
    /// after the last owed work cycle, a fresh session after a long break,
    /// otherwise a toggle between work and short break.
    pub open spec fn spec_transition(self, autow: bool, autob: bool) -> Timer {
        let stepped = if self.current_index == 0 && self.iterations + 1 == self.intervals {
            Timer { current_index: 2, iterations: self.intervals, ..self }
        } else if self.current_index == 2 && self.iterations == self.intervals {
            Timer {
                current_index: 0,
                iterations: 0,
                session_completed: (self.session_completed + 1) as u8,
                ..self
            }
        } else {
            let ni = ((self.current_index + 1) % 2) as usize;
            Timer {
                current_index: ni,
                iterations: if ni == 0 {
                    (self.iterations + 1) as u8
                } else {
                    self.iterations
                },
                ..self
            }
        };
        Timer {
            elapsed_time: 0,
            elapsed_millis: 0,
            running: (autob && stepped.current_index != 0) || (autow && stepped.current_index == 0),
            ..stepped
        }
    }

    /// What `update_state` leaves behind: the transition when the active
    /// cycle's duration is exactly reached, the state untouched otherwise.
    pub open spec fn spec_update(self, autow: bool, autob: bool) -> Timer {
        if self.fires() {
            self.spec_transition(autow, autob)
        } else {
            self
        }
    }

    /// Performs at most one transition, once per tick; instance 0 alone
    /// announces the cycle that was entered.
    pub fn update_state(&mut self, config: &Config)
        requires
            old(self).well_formed(),
            (old(self).fires() && old(self).current_index == 2) ==> old(self).session_completed
                < u8::MAX,
        ensures
            *final(self) == old(self).spec_update(config.autow, config.autob),
            final(self).well_formed(),
    {
        if self.elapsed_time == self.times[self.current_index] {
            if self.current_index == 0 && self.iterations + 1 == self.intervals {
                self.current_index = 2;
                self.iterations = self.intervals;
            } else if self.current_index == 2 && self.iterations == self.intervals {
                self.current_index = 0;
                self.iterations = 0;
                self.session_completed = self.session_completed + 1;
            } else {
                self.current_index = (self.current_index + 1) % 2;
                if self.current_index == 0 {
                    self.iterations = self.iterations + 1;
                }
            }

            self.elapsed_time = 0;
            self.elapsed_millis = 0;

            self.running = (config.autob && self.is_break()) || (config.autow && !self.is_break());

            if self.socket_nr == 0 {
                if self.current_index == 0 {
                    send_notification(CycleType::Work);
                } else if self.current_index == 1 {
                    send_notification(CycleType::ShortBreak);
                } else {
                    send_notification(CycleType::LongBreak);
                }
            }
        }
    }

    /// The duration of the active cycle.
    pub fn get_current_time(&self) -> (r: u16)
        requires
            self.current_index < 3,
        ensures
            r == self.times@[self.current_index as int],
    {
        self.times[self.current_index]
    }

    /// What `increment_time` leaves behind: one tick's worth of milliseconds
    /// added, carried into a whole second whenever the remainder reaches 1000.
    pub open spec fn spec_increment(self) -> Timer {
        if self.elapsed_millis + SLEEP_TIME >= 1000 {
            Timer {
                elapsed_millis: 0,
                elapsed_time: (self.elapsed_time + 1) as u16,
                ..self
            }
        } else {
            Timer { elapsed_millis: (self.elapsed_millis + SLEEP_TIME) as u16, ..self }
        }
    }

    /// Advances elapsed time by one tick.
    pub fn increment_time(&mut self)
        requires
            old(self).elapsed_millis < 1000,
            old(self).elapsed_time < u16::MAX,
        ensures
            *final(self) == old(self).spec_increment(),
            old(self).well_formed() ==> final(self).well_formed(),
    {
        self.elapsed_millis = self.elapsed_millis + SLEEP_TIME;
        if self.elapsed_millis >= 1000 {
            self.elapsed_millis = 0;
            self.elapsed_time = self.elapsed_time + 1;
        }
    }

    /// The timer with its active cycle marked as fully elapsed.
    pub open spec fn with_full_elapsed(self) -> Timer {
        Timer { elapsed_time: self.times@[self.current_index as int], ..self }
    }

    /// Forces the active cycle to complete now and takes its transition.
    pub fn skip(&mut self, config: &Config)
        requires
            old(self).well_formed(),
            old(self).current_index == 2 ==> old(self).session_completed < u8::MAX,
        ensures
            *final(self) == old(self).with_full_elapsed().spec_update(config.autow, config.autob),
            final(self).well_formed(),
    {
        self.elapsed_time = self.times[self.current_index];
        self.update_state(config);
    }
}

/// Driving the active cycle to its full duration and taking the transition.
pub open spec fn spec_complete(t: Timer, autow: bool, autob: bool) -> Timer {
    t.with_full_elapsed().spec_update(autow, autob)
}

/// `j` consecutive work-to-short-break round trips, each a completed work
/// cycle followed by a completed short break.
pub open spec fn spec_rounds(t: Timer, j: nat, autow: bool, autob: bool) -> Timer
    decreases j,
{
    if j == 0 {
        t
    } else {
        spec_complete(
            spec_complete(spec_rounds(t, (j - 1) as nat, autow, autob), autow, autob),
            autow,
            autob,
        )
    }
}

/// Round trips taken below the long-break threshold keep the work cycle
/// active and raise `iterations` by one each, touching nothing else.
pub proof fn lemma_rounds(t: Timer, j: nat, autow: bool, autob: bool)
    requires
        t.well_formed(),
        t.current_index == 0,
        t.iterations + j + 1 <= t.intervals,
    ensures
        spec_rounds(t, j, autow, autob).well_formed(),
        spec_rounds(t, j, autow, autob).current_index == 0,
        spec_rounds(t, j, autow, autob).iterations == t.iterations + j,
        spec_rounds(t, j, autow, autob).times == t.times,
        spec_rounds(t, j, autow, autob).intervals == t.intervals,
        spec_rounds(t, j, autow, autob).session_completed == t.session_completed,
        spec_rounds(t, j, autow, autob).socket_nr == t.socket_nr,
    decreases j,
{
    if j > 0 {
        lemma_rounds(t, (j - 1) as nat, autow, autob);
        let r = spec_rounds(t, (j - 1) as nat, autow, autob);
        let w = spec_complete(r, autow, autob);
        assert(w.current_index == 1);
        assert(spec_rounds(t, j, autow, autob) == spec_complete(w, autow, autob));
    }
}

/// For any positive durations and `intervals == k`: after `k - 1` round
/// trips, completing the `k`-th work cycle moves straight to the long break
/// in that single step, without entering the short break, and completes no
/// session on the way.
pub proof fn lemma_long_break_skips_short_break(t: Timer, autow: bool, autob: bool)
    requires
        t.well_formed(),
        t.current_index == 0,
        t.iterations == 0,
    ensures
        ({
            let u = spec_rounds(t, (t.intervals - 1) as nat, autow, autob);
            let f = spec_complete(u, autow, autob);
            &&& u.current_index == 0
            &&& u.iterations == t.intervals - 1
            &&& f.current_index == 2
            &&& f.iterations == t.intervals
            &&& f.session_completed == t.session_completed
        }),
{
    lemma_rounds(t, (t.intervals - 1) as nat, autow, autob);
}

/// Completing a long break always selects the work cycle, zeroes
/// `iterations`, and raises `session_completed` by exactly one.
pub proof fn lemma_long_break_completion(t: Timer, autow: bool, autob: bool)
    requires
        t.well_formed(),
        t.current_index == 2,
        t.session_completed < u8::MAX,
    ensures
        spec_complete(t, autow, autob).current_index == 0,
        spec_complete(t, autow, autob).iterations == 0,
        spec_complete(t, autow, autob).session_completed == t.session_completed + 1,
        spec_complete(t, autow, autob).well_formed(),
{
}

/// `n` tick increments in a row.
pub open spec fn spec_ticks(t: Timer, n: nat) -> Timer
    decreases n,
{
    if n == 0 {
        t
    } else {
        spec_ticks(t, (n - 1) as nat).spec_increment()
    }
}

proof fn lemma_ticks_aux(t: Timer, n: nat)
    requires
        t.elapsed_millis == 0,
        t.elapsed_time + n / 10 <= u16::MAX,
    ensures
        spec_ticks(t, n).elapsed_time == t.elapsed_time + n / 10,
        spec_ticks(t, n).elapsed_millis == 100 * (n % 10),
        spec_ticks(t, n) == (Timer {
            elapsed_time: spec_ticks(t, n).elapsed_time,
            elapsed_millis: spec_ticks(t, n).elapsed_millis,
            ..t
        }),
    decreases n,
{
    if n > 0 {
        let m = (n - 1) as nat;
        vstd::arithmetic::div_mod::lemma_div_is_ordered(m as int, n as int, 10);
        lemma_ticks_aux(t, m);
        let s = spec_ticks(t, m);
        vstd::arithmetic::div_mod::lemma_fundamental_div_mod(m as int, 10);
        if m % 10 == 9 {
            vstd::arithmetic::div_mod::lemma_fundamental_div_mod_converse(
                n as int,
                10,
                m as int / 10 + 1,
                0,
            );
            assert(n / 10 == m / 10 + 1);
        } else {
            vstd::arithmetic::div_mod::lemma_fundamental_div_mod_converse(
                n as int,
                10,
                m as int / 10,
                m as int % 10 + 1,
            );
            assert(n / 10 == m / 10);
        }
    }
}

/// `n` ticks of 100 ms each raise `elapsed_time` by `n / 10` seconds and
/// leave a remainder of `(n * 100) % 1000` milliseconds; no other field moves.
pub proof fn lemma_tick_accumulation(t: Timer, n: nat)
    requires
        t.elapsed_millis == 0,
        t.elapsed_time + n / 10 <= u16::MAX,
    ensures
        spec_ticks(t, n).elapsed_time == t.elapsed_time + n / 10,
        spec_ticks(t, n).elapsed_millis == (n * 100) % 1000,
        spec_ticks(t, n) == (Timer {
            elapsed_time: spec_ticks(t, n).elapsed_time,
            elapsed_millis: spec_ticks(t, n).elapsed_millis,
            ..t
        }),
{
    lemma_ticks_aux(t, n);
    vstd::arithmetic::div_mod::lemma_fundamental_div_mod(n as int, 10);
    vstd::arithmetic::div_mod::lemma_fundamental_div_mod_converse(
        n as int * 100,
        1000,
        n as int / 10,
        100 * (n as int % 10),
    );
}

} // verus!
