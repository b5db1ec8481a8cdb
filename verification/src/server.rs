use vstd::prelude::*;

use crate::config::Config;
use crate::consts::{HOUR, MINUTE};
use crate::helper::{spec_trim, trim_whitespace};
use crate::message::{has_group, selected_group, Message};
use crate::text::{
    append_pad2, append_u32, dec_digits, pad2, push_char, spec_parse_i32, str_eq, str_to_chars,
};
use crate::timer::{CycleType, Timer};
use vstd::string::StringExecFns;

verus! {

/// Relies on notify_rust::Notification: shows a desktop notification with the
/// given summary and body. Delivery failures are ignored; they never reach
/// engine state.
#[verifier::external_body]
fn notify_send(summary: &str, body: &str) {
    let _ = notify_rust::Notification::new().summary(summary).body(body).show();
}

/// Fires the desktop notification for the cycle that was just entered.
pub fn send_notification(cycle_type: CycleType) {
    let body = match cycle_type {
        CycleType::Work => "Time to work!",
        CycleType::ShortBreak => "Time for a short break!",
        CycleType::LongBreak => "Time for a long break!",
    };
    notify_send("Pomodoro", body);
}

/// The remaining time of the active cycle, as zero-padded `HH:MM:SS` when a
/// whole hour remains and `MM:SS` otherwise.
pub open spec fn spec_format_time(elapsed_time: u16, max_time: u16) -> Seq<char> {
    let time = max_time - elapsed_time;
    let hour = time / (HOUR as int);
    let minute = (time % (HOUR as int)) / (MINUTE as int);
    let second = time % (MINUTE as int);
    if hour > 0 {
        pad2(hour as nat) + seq![':'] + pad2(minute as nat) + seq![':'] + pad2(second as nat)
    } else {
        pad2(minute as nat) + seq![':'] + pad2(second as nat)
    }
}

/// Renders the remaining time of the active cycle.
pub fn format_time(elapsed_time: u16, max_time: u16) -> (r: String)
    requires
        elapsed_time <= max_time,
    ensures
        r@ == spec_format_time(elapsed_time, max_time),
{
    let time = max_time - elapsed_time;

    let hour = time / HOUR;
    let minute = (time % HOUR) / MINUTE;
    let second = time % MINUTE;

    proof {
        vstd::arithmetic::div_mod::lemma_div_is_ordered(time as int, u16::MAX as int, HOUR as int);
        assert(u16::MAX as int / (HOUR as int) == 18);
    }
    let mut r = String::new();
    if hour > 0 {
        append_pad2(&mut r, hour);
        push_char(&mut r, ':');
    }
    append_pad2(&mut r, minute);
    push_char(&mut r, ':');
    append_pad2(&mut r, second);
    proof {
        assert(r@ =~= spec_format_time(elapsed_time, max_time));
    }
    r
}

/// A name wrapped in double quotes.
pub open spec fn spec_quoted(c: Seq<char>) -> Seq<char> {
    seq!['"'] + c + seq!['"']
}

/// The first `idx` class names, each quoted, joined by commas.
pub open spec fn spec_class_list(class: Seq<Seq<char>>, idx: int) -> Seq<char>
    decreases idx,
{
    if idx <= 0 || idx > class.len() {
        Seq::empty()
    } else {
        spec_class_list(class, idx - 1) + (if idx - 1 > 0 {
            seq![',']
        } else {
            Seq::empty()
        }) + spec_quoted(class[idx - 1])
    }
}

/// The status record shown per tick: text, tooltip, class list, empty alt.
pub open spec fn spec_create_message(value: Seq<char>, tooltip: Seq<char>, class: Seq<Seq<char>>) -> Seq<char> {
    "{\"text\": \""@ + value + "\", \"tooltip\": \""@ + tooltip + "\", \"class\": ["@
        + spec_class_list(class, class.len() as int) + "], \"alt\": \"\"}"@
}

/// Renders one status record.
pub fn create_message(value: String, tooltip: &str, class: &[String]) -> (r: String)
    ensures
        r@ == spec_create_message(value@, tooltip@, class@.map_values(|c: String| c@)),
{
    let ghost cs = class@.map_values(|c: String| c@);
    let mut json = "{\"text\": \"".to_owned();
    json.append(value.as_str());
    json.append("\", \"tooltip\": \"");
    json.append(tooltip);
    json.append("\", \"class\": [");
    let n = class.len();
    let mut i: usize = 0;
    while i < n
        invariant
            0 <= i <= n == class@.len(),
            cs == class@.map_values(|c: String| c@),
            json@ == "{\"text\": \""@ + value@ + "\", \"tooltip\": \""@ + tooltip@
                + "\", \"class\": ["@ + spec_class_list(cs, i as int),
        decreases n - i,
    {
        proof {
            assert(cs[i as int] == class@[i as int]@);
        }
        if i > 0 {
            push_char(&mut json, ',');
        }
        push_char(&mut json, '"');
        json.append(class[i].as_str());
        push_char(&mut json, '"');
        proof {
            assert(json@ =~= "{\"text\": \""@ + value@ + "\", \"tooltip\": \""@ + tooltip@
                + "\", \"class\": ["@ + spec_class_list(cs, i + 1 as int));
        }
        i = i + 1;
    }
    json.append("], \"alt\": \"\"}");
    proof {
        assert(json@ =~= spec_create_message(value@, tooltip@, cs));
    }
    json
}

proof fn lemma_selected_choices_agree(m: Seq<char>)
    requires
        exists|i: int, j: int, k: int| selected_group(m, i, j, k),
    ensures
        ({
            let ijk = choose|ijk: (int, int, int)| selected_group(m, ijk.0, ijk.1, ijk.2);
            selected_group(m, ijk.0, ijk.1, ijk.2)
        }),
{
    let (i, j, k) = choose|i: int, j: int, k: int| selected_group(m, i, j, k);
    let t = (i, j, k);
    assert(selected_group(m, t.0, t.1, t.2));
}

/// The command a piece of text decodes to, when its selected group has a
/// non-empty name and an integer value.
pub open spec fn spec_decoded(m: Seq<char>) -> Option<(Seq<char>, i32)> {
    if has_group(m) {
        let ijk = choose|ijk: (int, int, int)| selected_group(m, ijk.0, ijk.1, ijk.2);
        let name = m.subrange(ijk.0 + 1, ijk.1);
        let val = m.subrange(ijk.1 + 1, ijk.2);
        if name.len() == 0 {
            None
        } else {
            match spec_parse_i32(val) {
                Ok(v) => Some((name, v)),
                Err(_) => None,
            }
        }
    } else {
        None
    }
}

/// What one control message does to the timer: a decoded `set-` command
/// overwrites one duration when its value fits the stored seconds, a bare
/// keyword starts, stops, toggles, resets or skips, and anything else leaves
/// the timer untouched.
pub open spec fn spec_process(t: Timer, m: Seq<char>, autow: bool, autob: bool) -> Timer {
    match spec_decoded(m) {
        Some((name, v)) => if name == "set-work"@ {
            if 0 <= v && v * 60 <= u16::MAX {
                t.spec_set_time(CycleType::Work, v as u16)
            } else {
                t
            }
        } else if name == "set-short"@ {
            if 0 <= v && v * 60 <= u16::MAX {
                t.spec_set_time(CycleType::ShortBreak, v as u16)
            } else {
                t
            }
        } else if name == "set-long"@ {
            if 0 <= v && v * 60 <= u16::MAX {
                t.spec_set_time(CycleType::LongBreak, v as u16)
            } else {
                t
            }
        } else {
            t
        },
        None => if m == "start"@ {
            Timer { running: true, ..t }
        } else if m == "stop"@ {
            Timer { running: false, ..t }
        } else if m == "toggle"@ {
            Timer { running: !t.running, ..t }
        } else if m == "reset"@ {
            t.spec_reset()
        } else if m == "skip"@ {
            t.with_full_elapsed().spec_update(autow, autob)
        } else {
            t
        },
    }
}

/// Applies one control message to the timer: a decoded `set-` command with a
/// value out of the storable range is dropped, as is any unknown message.
pub fn process_message(state: &mut Timer, message: &str, config: &Config)
    requires
        old(state).well_formed(),
        old(state).session_completed < u8::MAX,
    ensures
        *final(state) == spec_process(*old(state), message@, config.autow, config.autob),
        final(state).well_formed(),
{
    match Message::decode(message) {
        Ok(msg) => {
            proof {
                assert(has_group(message@));
                lemma_selected_choices_agree(message@);
            }
            let v = msg.value();
            let fits = 0 <= v && (v as i64) * 60 <= u16::MAX as i64;
            if str_eq(msg.name(), "set-work") {
                if fits {
                    state.set_time(CycleType::Work, v as u16);
                }
            } else if str_eq(msg.name(), "set-short") {
                if fits {
                    state.set_time(CycleType::ShortBreak, v as u16);
                }
            } else if str_eq(msg.name(), "set-long") {
                if fits {
                    state.set_time(CycleType::LongBreak, v as u16);
                }
            }
        },
        Err(_) => {
            proof {
                if has_group(message@) {
                    lemma_selected_choices_agree(message@);
                }
            }
            if str_eq(message, "start") {
                state.running = true;
            } else if str_eq(message, "stop") {
                state.running = false;
            } else if str_eq(message, "toggle") {
                state.running = !state.running;
            } else if str_eq(message, "reset") {
                state.reset();
            } else if str_eq(message, "skip") {
                state.skip(config);
            }
        },
    }
}

/// The session-count summary shown as the tooltip.
pub open spec fn spec_tooltip(n: u8) -> Seq<char> {
    dec_digits(n as nat) + " pomodoro"@ + (if n > 1 || n == 0 {
        "s"@
    } else {
        Seq::empty()
    }) + " completed this session"@
}

/// Renders the session-count summary.
pub fn build_tooltip(n: u8) -> (r: String)
    ensures
        r@ == spec_tooltip(n),
{
    let mut r = String::new();
    append_u32(&mut r, n as u32);
    r.append(" pomodoro");
    if n > 1 || n == 0 {
        r.append("s");
    }
    r.append(" completed this session");
    proof {
        assert(r@ =~= spec_tooltip(n));
    }
    r
}

/// The status line a tick prints, computed from the state after the tick's
/// message applied and before its transition: play or pause icon, remaining
/// time and cycle icon trimmed into the text, the session summary as the
/// tooltip, and the display class as the single class tag.
pub open spec fn spec_status_line(t: Timer, config: Config) -> Seq<char> {
    spec_create_message(
        spec_trim(
            config.spec_play_pause_icon(t.running) + seq![' '] + spec_format_time(
                t.elapsed_time,
                t.times[t.current_index as int],
            ) + seq![' '] + config.spec_cycle_icon(t.current_index != 0),
        ),
        spec_tooltip(t.session_completed),
        seq![t.spec_class()],
    )
}

/// One engine tick: applies at most one pending message, renders the status
/// line, takes a due transition, and advances elapsed time when running.
pub fn engine_tick(state: &mut Timer, config: &Config, message: Option<&str>) -> (line: String)
    requires
        old(state).well_formed(),
        old(state).session_completed < u8::MAX,
        old(state).elapsed_time <= old(state).times[old(state).current_index as int],
    ensures
        ({
            let s1 = match message {
                Some(msg) => spec_process(*old(state), msg@, config.autow, config.autob),
                None => *old(state),
            };
            let s2 = s1.spec_update(config.autow, config.autob);
            let s3 = if s2.running {
                s2.spec_increment()
            } else {
                s2
            };
            &&& *final(state) == s3
            &&& final(state).well_formed()
            &&& final(state).elapsed_time <= final(state).times[final(state).current_index as int]
            &&& line@ == spec_status_line(s1, *config)
        }),
{
    match message {
        Some(msg) => process_message(state, msg, config),
        None => (),
    }
    let ghost s1 = *state;
    proof {
        assert(s1.current_index == 2 ==> s1.session_completed == old(state).session_completed);
        assert(s1.elapsed_time <= s1.times[s1.current_index as int]);
    }

    let value = format_time(state.elapsed_time, state.get_current_time());
    let value_prefix = config.get_play_pause_icon(state.running);
    let tooltip = build_tooltip(state.session_completed);
    let class = state.get_class();
    let cycle_icon = config.get_cycle_icon(state.is_break());

    state.update_state(config);
    proof {
        assert(state.elapsed_time <= state.times[state.current_index as int]);
        assert(state.elapsed_time < u16::MAX);
    }

    let mut text = value_prefix.to_owned();
    push_char(&mut text, ' ');
    text.append(value.as_str());
    push_char(&mut text, ' ');
    text.append(cycle_icon);
    proof {
        assert(text@ =~= config.spec_play_pause_icon(s1.running) + seq![' '] + spec_format_time(
            s1.elapsed_time,
            s1.times[s1.current_index as int],
        ) + seq![' '] + config.spec_cycle_icon(s1.current_index != 0));
    }
    let text = trim_whitespace(text.as_str());

    let classes: Vec<String> = vec![class];
    proof {
        assert(classes@ =~= seq![class]);
        assert(classes@.map_values(|c: String| c@) =~= seq![s1.spec_class()]);
    }
    let line = create_message(text, tooltip.as_str(), classes.as_slice());

    if state.running {
        state.increment_time();
    }

    line
}

/// The instance ordinal embedded in a socket path: its decimal digits read
/// in order, accumulated with wrap-around.
pub open spec fn spec_socket_digits(s: Seq<char>) -> u32
    decreases s.len(),
{
    if s.len() == 0 {
        0u32
    } else {
        let prev = spec_socket_digits(s.drop_last());
        if crate::text::is_digit_char(s.last()) {
            prev.wrapping_mul(10).wrapping_add((s.last() as u32 - 48) as u32)
        } else {
            prev
        }
    }
}

/// Reads the instance ordinal out of a socket path.
pub fn socket_number(socket_path: &str) -> (r: u32)
    ensures
        r == spec_socket_digits(socket_path@),
{
    let v = str_to_chars(socket_path);
    let n = v.len();
    let mut acc: u32 = 0;
    let mut i: usize = 0;
    while i < n
        invariant
            0 <= i <= n == v@.len(),
            v@ == socket_path@,
            acc == spec_socket_digits(socket_path@.take(i as int)),
        decreases n - i,
    {
        proof {
            assert(socket_path@.take(i + 1 as int).drop_last() =~= socket_path@.take(i as int));
            assert(socket_path@.take(i + 1 as int).last() == socket_path@[i as int]);
        }
        let u = v[i] as u32;
        if 48 <= u && u <= 57 {
            acc = acc.wrapping_mul(10).wrapping_add(u - 48);
        }
        i = i + 1;
    }
    proof {
        assert(socket_path@.take(n as int) =~= socket_path@);
    }
    acc
}

} // verus!