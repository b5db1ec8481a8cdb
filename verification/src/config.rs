use vstd::prelude::*;

use crate::consts::{
    BREAK_ICON, LONG_BREAK_TIME, MAX_ITERATIONS, PAUSE_ICON, PLAY_ICON, SHORT_BREAK_TIME,
    WORK_ICON, WORK_TIME,
};
use crate::message::Message;
use crate::text::{
    chars_to_string, parse_i32_str, parse_u16, parse_u8, spec_parse_i32, spec_parse_u16,
    spec_parse_u8, str_eq, str_to_chars,
};
use vstd::pervasive::unreached;

verus! {

/// The abstract value of a `Config`: its fields, strings as character
/// sequences.
pub struct ConfigView {
    pub work_time: u16,
    pub short_break: u16,
    pub long_break: u16,
    pub intervals: u8,
    pub no_icons: bool,
    pub no_work_icons: bool,
    pub play_icon: Seq<char>,
    pub pause_icon: Seq<char>,
    pub work_icon: Seq<char>,
    pub break_icon: Seq<char>,
    pub autow: bool,
    pub autob: bool,
    pub persist: bool,
    pub binary_name: Seq<char>,
}

/// The immutable per-instance configuration, read once from the command line.
pub struct Config {
    pub work_time: u16,
    pub short_break: u16,
    pub long_break: u16,
    pub intervals: u8,
    pub no_icons: bool,
    pub no_work_icons: bool,
    pub play_icon: String,
    pub pause_icon: String,
    pub work_icon: String,
    pub break_icon: String,
    pub autow: bool,
    pub autob: bool,
    pub persist: bool,
    pub binary_name: String,
}

impl View for Config {
    type V = ConfigView;

    open spec fn view(&self) -> ConfigView {
        ConfigView {
            work_time: self.work_time,
            short_break: self.short_break,
            long_break: self.long_break,
            intervals: self.intervals,
            no_icons: self.no_icons,
            no_work_icons: self.no_work_icons,
            play_icon: self.play_icon@,
            pause_icon: self.pause_icon@,
            work_icon: self.work_icon@,
            break_icon: self.break_icon@,
            autow: self.autow,
            autob: self.autob,
            persist: self.persist,
            binary_name: self.binary_name@,
        }
    }
}

impl Default for Config {
    /// A configuration with zeroed durations and the stock icons.
    fn default() -> (c: Self)
        ensures
            c.work_time == 0,
            c.short_break == 0,
            c.long_break == 0,
            c.intervals == MAX_ITERATIONS,
            c.no_icons == false,
            c.no_work_icons == false,
            c.play_icon@ == PLAY_ICON@,
            c.pause_icon@ == PAUSE_ICON@,
            c.work_icon@ == WORK_ICON@,
            c.break_icon@ == BREAK_ICON@,
            c.autow == false,
            c.autob == false,
            c.persist == false,
            c.binary_name@ == Seq::<char>::empty(),
    {
        Self {
            work_time: 0,
            short_break: 0,
            long_break: 0,
            intervals: MAX_ITERATIONS,
            no_icons: false,
            no_work_icons: false,
            play_icon: PLAY_ICON.to_owned(),
            pause_icon: PAUSE_ICON.to_owned(),
            work_icon: WORK_ICON.to_owned(),
            break_icon: BREAK_ICON.to_owned(),
            autow: false,
            autob: false,
            persist: false,
            binary_name: String::new(),
        }
    }
}

impl Config {
    /// The icon matching the running state: blank when icons are disabled,
    /// the play icon when stopped, the pause icon when running.
    pub fn get_play_pause_icon(&self, running: bool) -> (r: &str)
        ensures
            r@ == self.spec_play_pause_icon(running),
    {
        if self.no_icons {
            return "";
        }
        if !running {
            self.play_icon.as_str()
        } else {
            self.pause_icon.as_str()
        }
    }

    /// What `get_play_pause_icon` returns.
    pub open spec fn spec_play_pause_icon(self, running: bool) -> Seq<char> {
        if self.no_icons {
            ""@
        } else if !running {
            self.play_icon@
        } else {
            self.pause_icon@
        }
    }

    /// The icon matching the cycle kind: blank when cycle icons are disabled,
    /// else the work or break icon.
    pub fn get_cycle_icon(&self, is_break: bool) -> (r: &str)
        ensures
            r@ == self.spec_cycle_icon(is_break),
    {
        if self.no_work_icons {
            return "";
        }
        if !is_break {
            self.work_icon.as_str()
        } else {
            self.break_icon.as_str()
        }
    }

    /// What `get_cycle_icon` returns.
    pub open spec fn spec_cycle_icon(self, is_break: bool) -> Seq<char> {
        if self.no_work_icons {
            ""@
        } else if !is_break {
            self.work_icon@
        } else {
            self.break_icon@
        }
    }
}

/// The element after the first occurrence of `key`, if both exist.
pub open spec fn spec_value_after(options: Seq<Seq<char>>, key: Seq<char>) -> Option<Seq<char>>
    decreases options.len(),
{
    if options.len() == 0 {
        None
    } else if options[0] == key {
        if options.len() >= 2 {
            Some(options[1])
        } else {
            None
        }
    } else {
        spec_value_after(options.drop_first(), key)
    }
}

/// The suffix of `s` after its last slash; all of `s` when it has none.
pub open spec fn spec_after_last_slash(s: Seq<char>) -> Seq<char>
    decreases s.len(),
{
    if s.len() == 0 {
        s
    } else if s.last() == '/' {
        Seq::empty()
    } else {
        spec_after_last_slash(s.drop_last()).push(s.last())
    }
}

/// The stock configuration before any option applies, carrying the name of
/// the running binary.
pub open spec fn spec_default_view(binary_name: Seq<char>) -> ConfigView {
    ConfigView {
        work_time: WORK_TIME,
        short_break: SHORT_BREAK_TIME,
        long_break: LONG_BREAK_TIME,
        intervals: MAX_ITERATIONS,
        no_icons: false,
        no_work_icons: false,
        play_icon: PLAY_ICON@,
        pause_icon: PAUSE_ICON@,
        work_icon: WORK_ICON@,
        break_icon: BREAK_ICON@,
        autow: false,
        autob: false,
        persist: false,
        binary_name: binary_name,
    }
}

/// How one option changes the configuration. A duration or interval option
/// reads the element after its own first occurrence and keeps the previous
/// value when that element is missing, fails to parse, or would overflow the
/// stored seconds; an icon option reads the same element as text; a flag
/// option sets its flag.
pub open spec fn spec_apply_opt(v: ConfigView, options: Seq<Seq<char>>, opt: Seq<char>) -> ConfigView {
    if opt == "-w"@ || opt == "--work"@ {
        match spec_value_after(options, opt) {
            Some(val) => match spec_parse_u16(val) {
                Some(x) => if x * 60 <= u16::MAX {
                    ConfigView { work_time: (x * 60) as u16, ..v }
                } else {
                    v
                },
                None => v,
            },
            None => v,
        }
    } else if opt == "-s"@ || opt == "--shortbreak"@ {
        match spec_value_after(options, opt) {
            Some(val) => match spec_parse_u16(val) {
                Some(x) => if x * 60 <= u16::MAX {
                    ConfigView { short_break: (x * 60) as u16, ..v }
                } else {
                    v
                },
                None => v,
            },
            None => v,
        }
    } else if opt == "-l"@ || opt == "--longbreak"@ {
        match spec_value_after(options, opt) {
            Some(val) => match spec_parse_u16(val) {
                Some(x) => if x * 60 <= u16::MAX {
                    ConfigView { long_break: (x * 60) as u16, ..v }
                } else {
                    v
                },
                None => v,
            },
            None => v,
        }
    } else if opt == "-i"@ || opt == "--intervals"@ {
        match spec_value_after(options, opt) {
            Some(val) => match spec_parse_u8(val) {
                Some(x) => ConfigView { intervals: x, ..v },
                None => v,
            },
            None => v,
        }
    } else if opt == "-p"@ || opt == "--play"@ {
        match spec_value_after(options, opt) {
            Some(val) => ConfigView { play_icon: val, ..v },
            None => v,
        }
    } else if opt == "-a"@ || opt == "--pause"@ {
        match spec_value_after(options, opt) {
            Some(val) => ConfigView { pause_icon: val, ..v },
            None => v,
        }
    } else if opt == "-o"@ || opt == "--work-icon"@ {
        match spec_value_after(options, opt) {
            Some(val) => ConfigView { work_icon: val, ..v },
            None => v,
        }
    } else if opt == "-b"@ || opt == "--break-icon"@ {
        match spec_value_after(options, opt) {
            Some(val) => ConfigView { break_icon: val, ..v },
            None => v,
        }
    } else if opt == "--autow"@ {
        ConfigView { autow: true, ..v }
    } else if opt == "--autob"@ {
        ConfigView { autob: true, ..v }
    } else if opt == "--persist"@ {
        ConfigView { persist: true, ..v }
    } else if opt == "--no-icons"@ {
        ConfigView { no_icons: true, ..v }
    } else if opt == "--no-work-icons"@ {
        ConfigView { no_work_icons: true, ..v }
    } else {
        v
    }
}

/// The options applied in order, from position `idx` on.
pub open spec fn spec_fold_options(v: ConfigView, options: Seq<Seq<char>>, idx: int) -> ConfigView
    decreases options.len() - idx,
{
    if idx < 0 || idx >= options.len() {
        v
    } else {
        spec_fold_options(spec_apply_opt(v, options, options[idx]), options, idx + 1)
    }
}

/// The views of a vector of strings.
pub open spec fn views_of(options: Seq<String>) -> Seq<Seq<char>> {
    options.map_values(|o: String| o@)
}

/// Looks up the element after the first occurrence of `key`.
fn value_after(options: &Vec<String>, key: &str) -> (r: Option<String>)
    ensures
        match r {
            Some(val) => spec_value_after(views_of(options@), key@) == Some(val@),
            None => spec_value_after(views_of(options@), key@) is None,
        },
{
    let ghost vs = views_of(options@);
    proof {
        assert(vs.skip(0) =~= vs);
    }
    let n = options.len();
    let mut p: usize = 0;
    while p < n
        invariant
            0 <= p <= n == options@.len(),
            vs == views_of(options@),
            spec_value_after(vs, key@) == spec_value_after(vs.skip(p as int), key@),
        decreases n - p,
    {
        proof {
            assert(vs.skip(p as int)[0] == vs[p as int]);
            assert(vs[p as int] == options@[p as int]@);
            assert(vs.skip(p as int).drop_first() =~= vs.skip(p + 1 as int));
        }
        if str_eq(options[p].as_str(), key) {
            if p + 1 < n {
                proof {
                    assert(vs.skip(p as int)[1] == vs[p + 1 as int]);
                }
                return Some(options[p + 1].clone());
            } else {
                return None;
            }
        }
        p = p + 1;
    }
    proof {
        assert(vs.skip(n as int) =~= Seq::<Seq<char>>::empty());
    }
    None
}

/// The suffix of `s` after its last slash.
fn after_last_slash(s: &str) -> (r: String)
    ensures
        r@ == spec_after_last_slash(s@),
{
    let v = str_to_chars(s);
    let n = v.len();
    let mut cut: usize = n;
    loop
        invariant
            0 <= cut <= n == v@.len(),
            v@ == s@,
            forall|q: int| cut <= q < n ==> v@[q] != '/',
        ensures
            0 <= cut <= n,
            forall|q: int| cut <= q < n ==> v@[q] != '/',
            cut == 0 || v@[cut - 1] == '/',
        decreases cut,
    {
        if cut == 0 {
            break ;
        }
        if v[cut - 1] == '/' {
            break ;
        }
        cut = cut - 1;
    }
    proof {
        if cut == 0 {
            lemma_no_slash_keeps_all(s@);
        } else {
            lemma_after_last_slash_at(s@, cut - 1 as int);
        }
    }
    chars_to_string(&v, cut, n)
}

proof fn lemma_no_slash_keeps_all(s: Seq<char>)
    requires
        forall|q: int| 0 <= q < s.len() ==> s[q] != '/',
    ensures
        spec_after_last_slash(s) == s,
    decreases s.len(),
{
    if s.len() > 0 {
        lemma_no_slash_keeps_all(s.drop_last());
        assert(spec_after_last_slash(s) =~= s);
    } else {
        assert(spec_after_last_slash(s) =~= s);
    }
}

proof fn lemma_after_last_slash_at(s: Seq<char>, p: int)
    requires
        0 <= p < s.len(),
        s[p] == '/',
        forall|q: int| p < q < s.len() ==> s[q] != '/',
    ensures
        spec_after_last_slash(s) == s.subrange(p + 1, s.len() as int),
    decreases s.len(),
{
    if p == s.len() - 1 {
        assert(spec_after_last_slash(s) =~= s.subrange(p + 1, s.len() as int));
    } else {
        lemma_after_last_slash_at(s.drop_last(), p);
        assert(s.drop_last().subrange(p + 1, s.len() - 1).push(s.last()) =~= s.subrange(
            p + 1,
            s.len() as int,
        ));
    }
}

impl Config {
    /// Builds the configuration from the raw command line: the first element
    /// names the binary, and later elements apply in order, each overriding
    /// what came before it.
    pub fn from_options(options: Vec<String>) -> (c: Self)
        requires
            options@.len() >= 1,
        ensures
            c@ == spec_fold_options(
                spec_default_view(spec_after_last_slash(options@[0]@)),
                views_of(options@),
                0,
            ),
    {
        let ghost vs = views_of(options@);

        let mut work_time: u16 = WORK_TIME;
        let mut short_break: u16 = SHORT_BREAK_TIME;
        let mut long_break: u16 = LONG_BREAK_TIME;
        let mut intervals: u8 = MAX_ITERATIONS;
        let mut no_icons = false;
        let mut no_work_icons = false;
        let mut play_icon = PLAY_ICON.to_owned();
        let mut pause_icon = PAUSE_ICON.to_owned();
        let mut work_icon = WORK_ICON.to_owned();
        let mut break_icon = BREAK_ICON.to_owned();
        let mut autow = false;
        let mut autob = false;
        let mut persist = false;

        let binary_name = after_last_slash(options[0].as_str());
        let ghost init = spec_default_view(spec_after_last_slash(options@[0]@));

        let n = options.len();
        let mut idx: usize = 0;
        while idx < n
            invariant
                0 <= idx <= n == options@.len(),
                vs == views_of(options@),
                init == spec_default_view(spec_after_last_slash(options@[0]@)),
                binary_name@ == init.binary_name,
                spec_fold_options(
                    ConfigView {
                        work_time,
                        short_break,
                        long_break,
                        intervals,
                        no_icons,
                        no_work_icons,
                        play_icon: play_icon@,
                        pause_icon: pause_icon@,
                        work_icon: work_icon@,
                        break_icon: break_icon@,
                        autow,
                        autob,
                        persist,
                        binary_name: binary_name@,
                    },
                    vs,
                    idx as int,
                ) == spec_fold_options(init, vs, 0),
            decreases n - idx,
        {
            proof {
                assert(vs[idx as int] == options@[idx as int]@);
            }
            let opt = options[idx].as_str();
            if str_eq(opt, "-w") || str_eq(opt, "--work") {
                match value_after(&options, opt) {
                    Some(val) => match parse_u16(val.as_str()) {
                        Some(x) => if (x as u32) * 60 <= u16::MAX as u32 {
                            work_time = x * 60;
                        },
                        None => (),
                    },
                    None => (),
                }
            } else if str_eq(opt, "-s") || str_eq(opt, "--shortbreak") {
                match value_after(&options, opt) {
                    Some(val) => match parse_u16(val.as_str()) {
                        Some(x) => if (x as u32) * 60 <= u16::MAX as u32 {
                            short_break = x * 60;
                        },
                        None => (),
                    },
                    None => (),
                }
            } else if str_eq(opt, "-l") || str_eq(opt, "--longbreak") {
                match value_after(&options, opt) {
                    Some(val) => match parse_u16(val.as_str()) {
                        Some(x) => if (x as u32) * 60 <= u16::MAX as u32 {
                            long_break = x * 60;
                        },
                        None => (),
                    },
                    None => (),
                }
            } else if str_eq(opt, "-i") || str_eq(opt, "--intervals") {
                match value_after(&options, opt) {
                    Some(val) => match parse_u8(val.as_str()) {
                        Some(x) => intervals = x,
                        None => (),
                    },
                    None => (),
                }
            } else if str_eq(opt, "-p") || str_eq(opt, "--play") {
                match value_after(&options, opt) {
                    Some(val) => play_icon = val,
                    None => (),
                }
            } else if str_eq(opt, "-a") || str_eq(opt, "--pause") {
                match value_after(&options, opt) {
                    Some(val) => pause_icon = val,
                    None => (),
                }
            } else if str_eq(opt, "-o") || str_eq(opt, "--work-icon") {
                match value_after(&options, opt) {
                    Some(val) => work_icon = val,
                    None => (),
                }
            } else if str_eq(opt, "-b") || str_eq(opt, "--break-icon") {
                match value_after(&options, opt) {
                    Some(val) => break_icon = val,
                    None => (),
                }
            } else if str_eq(opt, "--autow") {
                autow = true;
            } else if str_eq(opt, "--autob") {
                autob = true;
            } else if str_eq(opt, "--persist") {
                persist = true;
            } else if str_eq(opt, "--no-icons") {
                no_icons = true;
            } else if str_eq(opt, "--no-work-icons") {
                no_work_icons = true;
            }
            idx = idx + 1;
        }

        Self {
            work_time,
            short_break,
            long_break,
            intervals,
            no_icons,
            no_work_icons,
            play_icon,
            pause_icon,
            work_icon,
            break_icon,
            autow,
            autob,
            persist,
            binary_name,
        }
    }
}

/// Is `opt` one of the given keys?
pub open spec fn spec_is_key(opt: Seq<char>, keys: Seq<Seq<char>>) -> bool {
    exists|j: int| 0 <= j < keys.len() && keys[j] == opt
}

/// The views of a vector of string slices.
pub open spec fn key_views_of(keys: Seq<&str>) -> Seq<Seq<char>> {
    keys.map_values(|k: &str| k@)
}

fn matches_any(s: &str, keys: &Vec<&str>) -> (r: bool)
    ensures
        r == spec_is_key(s@, key_views_of(keys@)),
{
    let n = keys.len();
    let mut j: usize = 0;
    while j < n
        invariant
            0 <= j <= n == keys@.len(),
            forall|q: int| 0 <= q < j ==> key_views_of(keys@)[q] != s@,
        decreases n - j,
    {
        if str_eq(s, keys[j]) {
            proof {
                assert(key_views_of(keys@)[j as int] == keys@[j as int]@);
            }
            return true;
        }
        j = j + 1;
    }
    false
}

/// The element after the first element equal to any key: `None` when no
/// element matches, or when the first match is the final element.
pub fn get_config_value<'a>(options: &'a [String], keys: Vec<&'a str>) -> (r: Option<&'a String>)
    ensures
        ({
            let vs = views_of(options@);
            let ks = key_views_of(keys@);
            match r {
                Some(val) => exists|p: int|
                    {
                        &&& 0 <= p
                        &&& p + 1 < vs.len()
                        &&& #[trigger] spec_is_key(vs[p], ks)
                        &&& (forall|q: int| 0 <= q < p ==> !spec_is_key(vs[q], ks))
                        &&& val@ == vs[p + 1]
                    },
                None => (forall|p: int| 0 <= p < vs.len() ==> !spec_is_key(vs[p], ks)) || (
                vs.len() >= 1 && spec_is_key(vs[vs.len() - 1], ks) && (forall|q: int|
                    0 <= q < vs.len() - 1 ==> !spec_is_key(vs[q], ks))),
            }
        }),
{
    let ghost vs = views_of(options@);
    let ghost ks = key_views_of(keys@);
    let n = options.len();
    let mut p: usize = 0;
    while p < n
        invariant
            0 <= p <= n == options@.len(),
            vs == views_of(options@),
            ks == key_views_of(keys@),
            forall|q: int| 0 <= q < p ==> !spec_is_key(vs[q], ks),
        decreases n - p,
    {
        proof {
            assert(vs[p as int] == options@[p as int]@);
        }
        if matches_any(options[p].as_str(), &keys) {
            if p + 1 < n {
                proof {
                    assert(vs[p + 1 as int] == options@[p + 1 as int]@);
                }
                return Some(&options[p + 1]);
            } else {
                return None;
            }
        }
        p = p + 1;
    }
    None
}

/// The element after the first occurrence of `opt`, which the caller
/// guarantees to exist.
pub fn get_config_value_except(options: &[String], opt: &str) -> (r: String)
    requires
        ({
            let vs = views_of(options@);
            &&& exists|p: int| 0 <= p < vs.len() && #[trigger] vs[p] == opt@
            &&& forall|p: int|
                (0 <= p < vs.len() && #[trigger] vs[p] == opt@ && (forall|q: int|
                    0 <= q < p ==> vs[q] != opt@)) ==> p + 1 < vs.len()
        }),
    ensures
        ({
            let vs = views_of(options@);
            exists|p: int|
                {
                    &&& 0 <= p
                    &&& p + 1 < vs.len()
                    &&& #[trigger] vs[p] == opt@
                    &&& (forall|q: int| 0 <= q < p ==> vs[q] != opt@)
                    &&& r@ == vs[p + 1]
                }
        }),
{
    let ghost vs = views_of(options@);
    let keys: Vec<&str> = vec![opt];
    proof {
        assert(keys@[0] == opt);
        assert(key_views_of(keys@)[0] == opt@);
        assert forall|o: Seq<char>| spec_is_key(o, key_views_of(keys@)) == (o == opt@) by {
            if o == opt@ {
                assert(key_views_of(keys@)[0] == o);
            }
        }
    }
    match get_config_value(options, keys) {
        Some(v) => v.clone(),
        None => {
            proof {
                let p0 = choose|p: int| 0 <= p < vs.len() && #[trigger] vs[p] == opt@;
                assert(spec_is_key(vs[p0], key_views_of(seq![opt])));
            }
            unreached()
        },
    }
}

/// What one `set-` operation of the command line yields: the value after the
/// operation's first occurrence, kept only when it parses as a positive
/// integer.
pub open spec fn spec_set_op(args: Seq<Seq<char>>, name: Seq<char>) -> Option<i32> {
    match spec_value_after(args, name) {
        Some(v) => match spec_parse_i32(v) {
            Ok(x) => if x > 0 {
                Some(x)
            } else {
                None
            },
            Err(_) => None,
        },
        None => None,
    }
}

/// The command a kept `set-` operation becomes, as name and value.
pub open spec fn spec_op_entry(o: Option<i32>, name: Seq<char>) -> Seq<(Seq<char>, i32)> {
    match o {
        Some(x) => seq![(name, x)],
        None => Seq::empty(),
    }
}

/// Collects the `set-work`, `set-short` and `set-long` operations of the
/// command line, in that order, each kept only when its value parses as a
/// positive integer.
pub fn parse_set_operations(args: Vec<String>) -> (r: Vec<Message>)
    ensures
        r@.map_values(|m: Message| (m.name@, m.value)) == spec_op_entry(
            spec_set_op(views_of(args@), "set-work"@),
            "set-work"@,
        ) + spec_op_entry(spec_set_op(views_of(args@), "set-short"@), "set-short"@)
            + spec_op_entry(spec_set_op(views_of(args@), "set-long"@), "set-long"@),
{
    let mut set_operation: Vec<Message> = Vec::new();

    push_set_op(&mut set_operation, &args, "set-work");
    let ghost first = set_operation@;
    push_set_op(&mut set_operation, &args, "set-short");
    let ghost second = set_operation@;
    push_set_op(&mut set_operation, &args, "set-long");

    proof {
        let f = |m: Message| (m.name@, m.value);
        assert(set_operation@.map_values(f) =~= first.map_values(f) + spec_op_entry(
            spec_set_op(views_of(args@), "set-short"@),
            "set-short"@,
        ) + spec_op_entry(spec_set_op(views_of(args@), "set-long"@), "set-long"@));
    }
    set_operation
}

fn push_set_op(out: &mut Vec<Message>, args: &Vec<String>, name: &str)
    ensures
        final(out)@.map_values(|m: Message| (m.name@, m.value)) == old(out)@.map_values(
            |m: Message| (m.name@, m.value),
        ) + spec_op_entry(spec_set_op(views_of(args@), name@), name@),
{
    let ghost f = |m: Message| (m.name@, m.value);
    match value_after(args, name) {
        Some(val) => match parse_i32_str(val.as_str()) {
            Ok(x) => {
                if x > 0 {
                    let m = Message::new(name, x);
                    out.push(m);
                    proof {
                        assert(final(out)@.map_values(f) =~= old(out)@.map_values(f)
                            + spec_op_entry(spec_set_op(views_of(args@), name@), name@));
                    }
                } else {
                    proof {
                        assert(final(out)@.map_values(f) =~= old(out)@.map_values(f));
                    }
                }
            },
            Err(_) => {
                proof {
                    assert(final(out)@.map_values(f) =~= old(out)@.map_values(f));
                }
            },
        },
        None => {
            proof {
                assert(final(out)@.map_values(f) =~= old(out)@.map_values(f));
            }
        },
    }
}

} // verus!
