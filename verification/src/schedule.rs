//! Wall-clock decisions: the local time, its display, quiet hours, the
//! next reminder boundary and the pick of a reminder sound.
use vstd::prelude::*;
use crate::calendar::{date_of, date_of_day, weekday_of};
use crate::config::{lemma_rules_text_concat, rules_from_text, AppConfig, ConfigView, RuleView, parse_rules};
use crate::text::{
    chars_of, find_char, index_of, pad2, parse_u32_chars, parse_u32_spec, push_pad2, push_str,
    string_of, sub_chars,
};

verus! {

/// A calendar date and time of day, as the clock reports it.
#[derive(Debug, Clone, Copy)]
pub struct SystemTime {
    pub year: u16,
    pub month: u16,
    pub day_of_week: u16,
    pub day: u16,
    pub hour: u16,
    pub minute: u16,
    pub second: u16,
    pub milliseconds: u16,
}

impl Default for SystemTime {
    fn default() -> (res: Self)
        ensures
            res == (SystemTime {
                year: 0,
                month: 0,
                day_of_week: 0,
                day: 0,
                hour: 0,
                minute: 0,
                second: 0,
                milliseconds: 0,
            }),
    {
        SystemTime {
            year: 0,
            month: 0,
            day_of_week: 0,
            day: 0,
            hour: 0,
            minute: 0,
            second: 0,
            milliseconds: 0,
        }
    }
}

/// The date and time of day `local_secs` seconds after the Unix epoch
/// (1 January 1970, a Thursday), the seconds counted in local time; the
/// year is kept to the sixteen bits that the record holds.
pub open spec fn civil_time(local_secs: int) -> SystemTime {
    let t = local_secs + 719528 * 86400;
    let n = t / 86400;
    let sod = t % 86400;
    let date = date_of(n);
    SystemTime {
        year: date.0 as u16,
        month: date.1 as u16,
        day_of_week: weekday_of(n) as u16,
        day: date.2 as u16,
        hour: (sod / 3600) as u16,
        minute: ((sod / 60) % 60) as u16,
        second: (sod % 60) as u16,
        milliseconds: 0,
    }
}

/// The local date and time `unix_secs` seconds after the Unix epoch, where
/// local time is `utc_offset_secs` seconds ahead of UTC.
pub fn local_time_at(unix_secs: u64, utc_offset_secs: i32) -> (res: SystemTime)
    ensures
        res == civil_time(unix_secs + utc_offset_secs),
        res.day_of_week < 7,
{
    let base: u128 = (unix_secs as u128) + 62167219200;
    let t: u128 = if utc_offset_secs >= 0 {
        base + (utc_offset_secs as u128)
    } else {
        base - ((0i64 - (utc_offset_secs as i64)) as u128)
    };
    assert(t == unix_secs + utc_offset_secs + 719528 * 86400);
    let n: u128 = t / 86400;
    let sod: u128 = t % 86400;
    assert(n < 0x1_0000_0000_0000_0000);
    let date = date_of_day(n as u64);
    let wd: u128 = (n + 6) % 7;
    SystemTime {
        year: date.0 as u16,
        month: date.1 as u16,
        day_of_week: wd as u16,
        day: date.2 as u16,
        hour: (sod / 3600) as u16,
        minute: ((sod / 60) % 60) as u16,
        second: (sod % 60) as u16,
        milliseconds: 0,
    }
}

/// The local date and time of the clock reading `unix_secs`, local time
/// being `utc_offset_secs` seconds ahead of UTC.
pub open spec fn clock_time(unix_secs: u64, utc_offset_secs: i32) -> SystemTime {
    civil_time(unix_secs + utc_offset_secs)
}

/// Whole seconds since the Unix epoch by the system clock, 0 for a clock
/// set before the epoch (`std::time::SystemTime::now`).  Nothing is stated
/// of the value: it is the clock's.
#[verifier::external_body]
fn unix_time_secs() -> u64 {
    std::time::SystemTime::now().duration_since(std::time::UNIX_EPOCH).unwrap_or_default().as_secs()
}

/// The local date and time by the system clock, where local time is
/// `utc_offset_secs` seconds ahead of UTC: the calendar date, weekday and
/// time of day of the clock's reading in that zone.
pub fn get_local_time(utc_offset_secs: i32) -> (res: SystemTime)
    ensures
        exists|t: u64| res == clock_time(t, utc_offset_secs),
        res.day_of_week < 7,
{
    let now = unix_time_secs();
    let res = local_time_at(now, utc_offset_secs);
    assert(res == clock_time(now, utc_offset_secs));
    res
}

/// The hour on a twelve-hour clock face.
pub open spec fn display_hour(h: u16) -> nat {
    if h == 0 {
        12
    } else if h > 12 {
        (h - 12) as nat
    } else {
        h as nat
    }
}

/// `hh:mm:ss am` / `hh:mm:ss pm`.
pub open spec fn time_text(st: SystemTime) -> Seq<char> {
    pad2(display_hour(st.hour)) + seq![':'] + pad2(st.minute as nat) + seq![':'] + pad2(
        st.second as nat,
    ) + seq![' '] + (if st.hour >= 12 { "pm"@ } else { "am"@ })
}

/// The time written as `hh:mm:ss am` or `hh:mm:ss pm`.
pub fn time_string_of(st: &SystemTime) -> (res: String)
    ensures
        res@ == time_text(*st),
{
    let hour = st.hour;
    let display: u16 = if hour == 0 {
        12
    } else if hour > 12 {
        hour - 12
    } else {
        hour
    };
    let mut out: Vec<char> = Vec::new();
    push_pad2(&mut out, display as u64);
    out.push(':');
    push_pad2(&mut out, st.minute as u64);
    out.push(':');
    push_pad2(&mut out, st.second as u64);
    out.push(' ');
    let ghost before = out@;
    if hour >= 12 {
        push_str(&mut out, "pm");
    } else {
        push_str(&mut out, "am");
    }
    assert(out@ =~= time_text(*st));
    string_of(&out)
}

/// The current local time written as `hh:mm:ss am` or `hh:mm:ss pm`,
/// local time being `utc_offset_secs` seconds ahead of UTC.
pub fn get_time_string(utc_offset_secs: i32) -> (res: String)
    ensures
        exists|t: u64| res@ == time_text(clock_time(t, utc_offset_secs)),
{
    let st = get_local_time(utc_offset_secs);
    time_string_of(&st)
}

/// What reading `h:m` gives: two `u32`s around the first `:`, an hour
/// below 24 and a minute below 60.
pub open spec fn parse_time_spec(s: Seq<char>) -> Option<(u32, u32)> {
    match index_of(s, ':') {
        None => None,
        Some(p) => match (parse_u32_spec(s.take(p as int)), parse_u32_spec(s.skip(p as int + 1))) {
            (Some(h), Some(m)) => if h < 24 && m < 60 {
                Some((h, m))
            } else {
                None
            },
            _ => None,
        },
    }
}

/// Reads `h:m` as an hour and a minute.
pub fn parse_time(s: &str) -> (res: Option<(u32, u32)>)
    ensures
        res == parse_time_spec(s@),
{
    let cs = chars_of(s);
    let p = match find_char(&cs, ':') {
        Some(p) => p,
        None => return None,
    };
    let hs = sub_chars(&cs, 0, p);
    let ms = sub_chars(&cs, p + 1, cs.len());
    assert(hs@ =~= s@.take(p as int));
    assert(ms@ =~= s@.skip(p as int + 1));
    let h = match parse_u32_chars(&hs) {
        Some(h) => h,
        None => return None,
    };
    let m = match parse_u32_chars(&ms) {
        Some(m) => m,
        None => return None,
    };
    if h < 24 && m < 60 {
        Some((h, m))
    } else {
        None
    }
}

/// The day's place in a rule's week, Monday first (the clock counts
/// Sunday as day 0).
pub open spec fn day_index(st: SystemTime) -> int {
    if st.day_of_week == 0 {
        6
    } else {
        st.day_of_week - 1
    }
}

pub open spec fn minute_of_day(st: SystemTime) -> int {
    st.hour * 60 + st.minute
}

/// The rule mutes reminders on day `day` at `m` minutes past midnight.
pub open spec fn rule_mutes(r: RuleView, day: int, m: int) -> bool {
    &&& r.enabled
    &&& r.days[day]
    &&& if !r.overnight {
        r.start_hour * 60 <= m < r.end_hour * 60
    } else {
        m >= r.start_hour * 60 || m < r.end_hour * 60
    }
}

/// Quiet hours hold at `st`: they are switched on and some rule of the
/// rule list mutes that moment.
pub open spec fn quiet_at(c: ConfigView, st: SystemTime) -> bool {
    let rules = rules_from_text(c.quiet_hours_rules);
    &&& c.quiet_hours_enabled
    &&& exists|i: int|
        0 <= i < rules.len() && #[trigger] rule_mutes(rules[i], day_index(st), minute_of_day(st))
}

/// No rule of the list is switched on.
pub open spec fn no_enabled_rule(c: ConfigView) -> bool {
    forall|i: int|
        0 <= i < rules_from_text(c.quiet_hours_rules).len() ==> !(#[trigger] rules_from_text(
            c.quiet_hours_rules,
        )[i]).enabled
}

/// Whether quiet hours hold at `now`.
pub fn is_quiet_at(config: &AppConfig, now: &SystemTime) -> (res: bool)
    requires
        now.day_of_week <= 7 || !config.quiet_hours_enabled || no_enabled_rule(config@),
    ensures
        res == quiet_at(config@, *now),
{
    if !config.quiet_hours_enabled {
        return false;
    }
    let rules = parse_rules(config.quiet_hours_rules.as_str());
    let ghost rs = rules_from_text(config@.quiet_hours_rules);
    if rules.len() == 0 {
        return false;
    }
    let day_idx: usize = if now.day_of_week == 0 {
        6
    } else {
        (now.day_of_week - 1) as usize
    };
    let current: u64 = (now.hour as u64) * 60 + (now.minute as u64);
    let mut i: usize = 0;
    while i < rules.len()
        invariant
            i <= rules.len(),
            rs.len() == rules.len(),
            forall|j: int| 0 <= j < rules.len() ==> #[trigger] rs[j] == rules@[j]@,
            now.day_of_week <= 7 || no_enabled_rule(config@),
            config.quiet_hours_enabled,
            rs == rules_from_text(config@.quiet_hours_rules),
            day_idx == day_index(*now),
            current == minute_of_day(*now),
            forall|j: int|
                0 <= j < i ==> !#[trigger] rule_mutes(rs[j], day_index(*now), minute_of_day(*now)),
        decreases rules.len() - i,
    {
        let rule = &rules[i];
        assert(rs[i as int] == rule@);
        if !rule.enabled {
            i = i + 1;
            continue;
        }
        assert(day_idx < 7);
        if !rule.days[day_idx] {
            i = i + 1;
            continue;
        }
        let start: u64 = (rule.start_hour as u64) * 60;
        let end: u64 = (rule.end_hour as u64) * 60;
        if !rule.overnight {
            if current >= start && current < end {
                assert(rule_mutes(rs[i as int], day_index(*now), minute_of_day(*now)));
                return true;
            }
        } else {
            if current >= start || current < end {
                assert(rule_mutes(rs[i as int], day_index(*now), minute_of_day(*now)));
                return true;
            }
        }
        i = i + 1;
    }
    false
}

/// Adding rules never ends a quiet period: when quiet hours hold at `st`,
/// they still hold with more rules appended to the rule list after a `;`.
pub proof fn lemma_more_rules_keep_quiet(c: ConfigView, extra: Seq<char>, st: SystemTime)
    requires
        quiet_at(c, st),
    ensures
        quiet_at(ConfigView { quiet_hours_rules: c.quiet_hours_rules.push(';') + extra, ..c }, st),
{
    let rules = rules_from_text(c.quiet_hours_rules);
    let i = choose|i: int|
        0 <= i < rules.len() && #[trigger] rule_mutes(rules[i], day_index(st), minute_of_day(st));
    assert(c.quiet_hours_rules.len() > 0);
    lemma_rules_text_concat(c.quiet_hours_rules, extra);
    let more = rules_from_text(c.quiet_hours_rules.push(';') + extra);
    assert(more[i] == rules[i]);
    assert(rule_mutes(more[i], day_index(st), minute_of_day(st)));
    let c2 = ConfigView { quiet_hours_rules: c.quiet_hours_rules.push(';') + extra, ..c };
    assert(rules_from_text(c2.quiet_hours_rules) == more);
    assert(c2.quiet_hours_enabled);
    assert(0 <= i < more.len());
}

/// Quiet hours hold at a time exactly when they are switched on and some
/// switched-on rule of the list has the flag of that weekday set and covers
/// that minute.  The flags run Monday first: for weekday `w` (Sunday being
/// 0) the flag read is `(w + 6) % 7`.  A rule covers the minutes from its
/// start hour up to its end hour, or, overnight, those from its start hour
/// on and those before its end hour.
pub proof fn lemma_quiet_at_reads_weekday_flag(c: ConfigView, st: SystemTime)
    requires
        st.day_of_week < 7,
    ensures
        quiet_at(c, st) == (c.quiet_hours_enabled && exists|i: int|
            0 <= i < rules_from_text(c.quiet_hours_rules).len()
                && (#[trigger] rules_from_text(c.quiet_hours_rules)[i]).enabled
                && rules_from_text(c.quiet_hours_rules)[i].days[(st.day_of_week + 6) % 7]
                && (if rules_from_text(c.quiet_hours_rules)[i].overnight {
                st.hour * 60 + st.minute >= rules_from_text(c.quiet_hours_rules)[i].start_hour * 60
                    || st.hour * 60 + st.minute < rules_from_text(c.quiet_hours_rules)[i].end_hour
                    * 60
            } else {
                rules_from_text(c.quiet_hours_rules)[i].start_hour * 60 <= st.hour * 60 + st.minute
                    < rules_from_text(c.quiet_hours_rules)[i].end_hour * 60
            })),
{
    let rs = rules_from_text(c.quiet_hours_rules);
    assert(day_index(st) == (st.day_of_week + 6) % 7);
    assert(minute_of_day(st) == st.hour * 60 + st.minute);
    if quiet_at(c, st) {
        let i = choose|i: int|
            0 <= i < rs.len() && #[trigger] rule_mutes(rs[i], day_index(st), minute_of_day(st));
        assert(rs[i].enabled);
    }
    if c.quiet_hours_enabled && exists|i: int|
        0 <= i < rs.len() && (#[trigger] rs[i]).enabled && rs[i].days[(st.day_of_week + 6) % 7]
            && (if rs[i].overnight {
            st.hour * 60 + st.minute >= rs[i].start_hour * 60 || st.hour * 60 + st.minute
                < rs[i].end_hour * 60
        } else {
            rs[i].start_hour * 60 <= st.hour * 60 + st.minute < rs[i].end_hour * 60
        }) {
        let i = choose|i: int|
            0 <= i < rs.len() && (#[trigger] rs[i]).enabled && rs[i].days[(st.day_of_week + 6) % 7]
                && (if rs[i].overnight {
                st.hour * 60 + st.minute >= rs[i].start_hour * 60 || st.hour * 60 + st.minute
                    < rs[i].end_hour * 60
            } else {
                rs[i].start_hour * 60 <= st.hour * 60 + st.minute < rs[i].end_hour * 60
            });
        assert(rule_mutes(rs[i], day_index(st), minute_of_day(st)));
    }
}

/// Whether quiet hours hold now by the system clock, local time being
/// `utc_offset_secs` seconds ahead of UTC.
pub fn is_in_quiet_hours(config: &AppConfig, utc_offset_secs: i32) -> (res: bool)
    ensures
        exists|t: u64| res == quiet_at(config@, clock_time(t, utc_offset_secs)),
{
    let st = get_local_time(utc_offset_secs);
    is_quiet_at(config, &st)
}

/// The seed that the time of day gives the reminder pick.
pub open spec fn random_seed(st: SystemTime) -> int {
    st.milliseconds * 1000 + st.second * 100 + st.minute
}

/// The reminder picked among `max` at `st`: one step of the linear
/// congruential generator `x * 1103515245 + 12345`, kept to 31 bits, taken
/// modulo `max` (0 when there is nothing to pick from).
pub open spec fn random_index_spec(max: nat, st: SystemTime) -> nat {
    if max == 0 {
        0
    } else {
        (((random_seed(st) * 1103515245 + 12345) % 0x8000_0000) % (max as int)) as nat
    }
}

/// The index among `max` picked at `now`.
pub fn random_index_at(max: usize, now: &SystemTime) -> (res: usize)
    ensures
        res == random_index_spec(max as nat, *now),
        max > 0 ==> res < max,
{
    if max == 0 {
        return 0;
    }
    let seed: u64 = (now.milliseconds as u64) * 1000 + (now.second as u64) * 100
        + (now.minute as u64);
    assert(seed <= 72154035);
    assert(seed * 1103515245 <= 72154035 * 1103515245) by (nonlinear_arith)
        requires
            seed <= 72154035,
    ;
    let x: u64 = seed * 1103515245 + 12345;
    let r: u64 = x & 0x7fff_ffff;
    assert(x & 0x7fff_ffff == x % 0x8000_0000) by (bit_vector);
    let ru: usize = r as usize;
    ru % max
}

/// The pick among `max` is the pick among 2^31 taken modulo `max`, no
/// index moved; and the pick among 2^31 is one step of the generator
/// `x * 1103515245 + 12345`, kept to 31 bits, on the seed
/// `milliseconds * 1000 + second * 100 + minute`.
pub proof fn lemma_pick_is_generator_step_mod_max(max: nat, st: SystemTime)
    requires
        max > 0,
    ensures
        random_index_spec(0x8000_0000, st) == ((st.milliseconds * 1000 + st.second * 100
            + st.minute) * 1103515245 + 12345) % 0x8000_0000,
        random_index_spec(max, st) == random_index_spec(0x8000_0000, st) % max,
{
    let x = (st.milliseconds * 1000 + st.second * 100 + st.minute) * 1103515245 + 12345;
    assert(random_seed(st) == st.milliseconds * 1000 + st.second * 100 + st.minute);
    assert(x >= 0) by (nonlinear_arith)
        requires
            x == (st.milliseconds * 1000 + st.second * 100 + st.minute) * 1103515245 + 12345,
            st.milliseconds >= 0,
            st.second >= 0,
            st.minute >= 0,
    ;
    let v = x % 0x8000_0000;
    vstd::arithmetic::div_mod::lemma_mod_pos_bound(x, 0x8000_0000);
    vstd::arithmetic::div_mod::lemma_small_mod(v as nat, 0x8000_0000);
}

/// The index among `max` picked now by the system clock (0 when `max` is
/// 0), local time being `utc_offset_secs` seconds ahead of UTC.
pub fn get_random_index(max: usize, utc_offset_secs: i32) -> (res: usize)
    ensures
        exists|t: u64| res == random_index_spec(max as nat, clock_time(t, utc_offset_secs)),
        max > 0 ==> res < max,
{
    if max == 0 {
        assert(0 == random_index_spec(0, clock_time(0, utc_offset_secs)));
        return 0;
    }
    let st = get_local_time(utc_offset_secs);
    random_index_at(max, &st)
}

pub open spec fn seconds_into_hour(st: SystemTime) -> int {
    st.minute * 60 + st.second
}

/// Seconds from `st` to the next multiple of the interval past the hour.
pub open spec fn boundary_spec(interval_mins: u32, st: SystemTime) -> int {
    let isec = interval_mins * 60;
    isec - seconds_into_hour(st) % isec
}

/// Seconds from `now` to the next reminder boundary: the next multiple of
/// the interval, counted from the full hour.  The wait is never zero, at
/// most one interval, and ends on a boundary.
pub fn seconds_until_boundary_at(interval_mins: u32, now: &SystemTime) -> (res: u32)
    requires
        0 < interval_mins <= u32::MAX / 60,
    ensures
        res == boundary_spec(interval_mins, *now),
        0 < res <= interval_mins * 60,
        (seconds_into_hour(*now) + res) % (interval_mins as int * 60) == 0,
{
    let current: u64 = (now.minute as u64) * 60 + (now.second as u64);
    let isec: u64 = (interval_mins as u64) * 60;
    let q: u64 = current / isec;
    proof {
        vstd::arithmetic::div_mod::lemma_fundamental_div_mod(current as int, isec as int);
        vstd::arithmetic::div_mod::lemma_mod_pos_bound(current as int, isec as int);
        assert(isec * q == q * isec) by (nonlinear_arith);
        assert((q + 1) * isec == q * isec + isec) by (nonlinear_arith);
    }
    assert(q * isec <= current);
    let next: u64 = (q + 1) * isec;
    let remaining: u64 = next - current;
    assert(remaining == isec - current % isec);
    let res: u64 = if remaining == 0 { isec } else { remaining };
    proof {
        vstd::arithmetic::div_mod::lemma_fundamental_div_mod_converse_mod(
            current as int + res as int,
            isec as int,
            q as int + 1,
            0,
        );
    }
    res as u32
}

/// Seconds from now, by the system clock, to the next reminder boundary,
/// local time being `utc_offset_secs` seconds ahead of UTC.
pub fn get_seconds_until_next_boundary(interval_mins: u32, utc_offset_secs: i32) -> (res: u32)
    requires
        0 < interval_mins <= u32::MAX / 60,
    ensures
        exists|t: u64| res == boundary_spec(interval_mins, clock_time(t, utc_offset_secs)),
        0 < res <= interval_mins * 60,
{
    let st = get_local_time(utc_offset_secs);
    seconds_until_boundary_at(interval_mins, &st)
}

} // verus!
