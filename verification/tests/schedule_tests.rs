use autozikr::config::AppConfig;
use autozikr::schedule::{
    get_local_time, get_random_index, get_seconds_until_next_boundary, get_time_string,
    is_in_quiet_hours, is_quiet_at, local_time_at, parse_time, random_index_at,
    seconds_until_boundary_at, time_string_of, SystemTime,
};

fn at(day_of_week: u16, hour: u16, minute: u16, second: u16, milliseconds: u16) -> SystemTime {
    SystemTime { year: 2026, month: 1, day_of_week, day: 1, hour, minute, second, milliseconds }
}

fn quiet_config(rules: &str) -> AppConfig {
    let mut c = AppConfig::default();
    c.quiet_hours_enabled = true;
    c.quiet_hours_rules = rules.to_string();
    c
}

fn ymd_wd(st: &SystemTime) -> (u16, u16, u16, u16) {
    (st.year, st.month, st.day, st.day_of_week)
}

fn hms(st: &SystemTime) -> (u16, u16, u16) {
    (st.hour, st.minute, st.second)
}

#[test]
fn local_time_from_unix_seconds() {
    let st = local_time_at(1_700_000_000, 0);
    assert_eq!(ymd_wd(&st), (2023, 11, 14, 2));
    assert_eq!(hms(&st), (22, 13, 20));
    assert_eq!(st.milliseconds, 0);
}

#[test]
fn local_time_offset_crosses_midnight() {
    let st = local_time_at(1_700_000_000, 7200);
    assert_eq!(ymd_wd(&st), (2023, 11, 15, 3));
    assert_eq!(hms(&st), (0, 13, 20));
    let st = local_time_at(1_700_000_000, -3 * 3600 - 1800);
    assert_eq!(ymd_wd(&st), (2023, 11, 14, 2));
    assert_eq!(hms(&st), (18, 43, 20));
}

#[test]
fn local_time_before_the_epoch_in_local_time() {
    let st = local_time_at(0, -3600);
    assert_eq!(ymd_wd(&st), (1969, 12, 31, 3));
    assert_eq!(hms(&st), (23, 0, 0));
    let st = local_time_at(0, 0);
    assert_eq!(ymd_wd(&st), (1970, 1, 1, 4));
    assert_eq!(hms(&st), (0, 0, 0));
}

#[test]
fn local_time_leap_days() {
    assert_eq!(ymd_wd(&local_time_at(951_782_400, 0)), (2000, 2, 29, 2));
    assert_eq!(ymd_wd(&local_time_at(951_782_400 + 86_400, 0)), (2000, 3, 1, 3));
    assert_eq!(ymd_wd(&local_time_at(4_107_456_000, 0)), (2100, 2, 28, 0));
    assert_eq!(ymd_wd(&local_time_at(4_107_456_000 + 86_400, 0)), (2100, 3, 1, 1));
    let st = local_time_at(253_402_300_799, 0);
    assert_eq!(ymd_wd(&st), (9999, 12, 31, 5));
    assert_eq!(hms(&st), (23, 59, 59));
}

#[test]
fn get_local_time_is_a_date_and_time() {
    let st = get_local_time(0);
    assert!(st.hour < 24 && st.minute < 60 && st.second < 60);
    assert!(st.day_of_week < 7);
    assert!(st.month >= 1 && st.month <= 12 && st.day >= 1 && st.day <= 31);
    assert!(st.year >= 2024);
}

#[test]
fn time_string_twelve_hour_clock() {
    assert_eq!(time_string_of(&at(1, 0, 5, 9, 0)), "12:05:09 am");
    assert_eq!(time_string_of(&at(1, 12, 0, 0, 0)), "12:00:00 pm");
    assert_eq!(time_string_of(&at(1, 13, 30, 45, 0)), "01:30:45 pm");
    assert_eq!(time_string_of(&at(1, 9, 59, 59, 0)), "09:59:59 am");
    assert_eq!(time_string_of(&at(1, 112, 100, 7, 0)), "100:100:07 pm");
}

#[test]
fn get_time_string_shape() {
    let s = get_time_string(0);
    assert_eq!(s.len(), 11);
    assert!(s.ends_with(" am") || s.ends_with(" pm"));
}

#[test]
fn parse_time_cases() {
    assert_eq!(parse_time("22:30"), Some((22, 30)));
    assert_eq!(parse_time("+7:05"), Some((7, 5)));
    assert_eq!(parse_time("24:00"), None);
    assert_eq!(parse_time("23:60"), None);
    assert_eq!(parse_time("2230"), None);
    assert_eq!(parse_time("1:2:3"), None);
    assert_eq!(parse_time(":"), None);
}

#[test]
fn quiet_hours_off_when_disabled() {
    let mut c = quiet_config("true,every_day,0,23,1111111,false");
    c.quiet_hours_enabled = false;
    assert!(!is_quiet_at(&c, &at(1, 5, 0, 0, 0)));
}

#[test]
fn quiet_hours_daytime_rule() {
    let c = quiet_config("true,work_days,9,17,1111100,false");
    assert!(is_quiet_at(&c, &at(1, 9, 0, 0, 0)));
    assert!(is_quiet_at(&c, &at(5, 16, 59, 0, 0)));
    assert!(!is_quiet_at(&c, &at(1, 17, 0, 0, 0)));
    assert!(!is_quiet_at(&c, &at(1, 8, 59, 0, 0)));
    assert!(!is_quiet_at(&c, &at(6, 12, 0, 0, 0)));
    assert!(!is_quiet_at(&c, &at(0, 12, 0, 0, 0)));
}

#[test]
fn quiet_hours_overnight_rule() {
    let c = quiet_config("true,every_day,22,8,1111111,true");
    assert!(is_quiet_at(&c, &at(3, 23, 0, 0, 0)));
    assert!(is_quiet_at(&c, &at(3, 7, 59, 0, 0)));
    assert!(!is_quiet_at(&c, &at(3, 8, 0, 0, 0)));
    assert!(!is_quiet_at(&c, &at(3, 21, 59, 0, 0)));
}

#[test]
fn quiet_hours_sunday_is_last_day() {
    let c = quiet_config("true,weekends,0,24,0000001,false");
    assert!(is_quiet_at(&c, &at(0, 10, 0, 0, 0)));
    assert!(!is_quiet_at(&c, &at(6, 10, 0, 0, 0)));
}

#[test]
fn quiet_hours_disabled_rule_ignored() {
    let c = quiet_config("false,every_day,0,24,1111111,false");
    assert!(!is_quiet_at(&c, &at(2, 10, 0, 0, 0)));
}

#[test]
fn is_in_quiet_hours_follows_config() {
    assert!(!is_in_quiet_hours(&AppConfig::default(), 0));
    assert!(is_in_quiet_hours(&quiet_config("true,every_day,0,24,1111111,false"), 3600));
}

#[test]
fn random_index_formula() {
    // seed = 123 * 1000 + 45 * 100 + 6 = 127506
    let st = at(1, 0, 6, 45, 123);
    let seed: u64 = 127506;
    let expect = ((seed * 1103515245 + 12345) & 0x7fffffff) % 12;
    assert_eq!(random_index_at(12, &st) as u64, expect);
    assert_eq!(random_index_at(0, &st), 0);
    assert_eq!(random_index_at(1, &st), 0);
}

#[test]
fn get_random_index_in_range() {
    assert_eq!(get_random_index(0, 0), 0);
    for max in 1..20usize {
        assert!(get_random_index(max, -7200) < max);
    }
}

#[test]
fn boundary_examples() {
    assert_eq!(seconds_until_boundary_at(15, &at(1, 10, 7, 30, 0)), 450);
    assert_eq!(seconds_until_boundary_at(15, &at(1, 10, 15, 0, 0)), 900);
    assert_eq!(seconds_until_boundary_at(60, &at(1, 10, 59, 59, 0)), 1);
    assert_eq!(seconds_until_boundary_at(7, &at(1, 10, 55, 0, 0)), 60);
}

#[test]
fn boundary_lands_on_interval() {
    for mins in [5u32, 10, 15, 30, 60] {
        for minute in 0..60u16 {
            let st = at(1, 3, minute, 17, 0);
            let r = seconds_until_boundary_at(mins, &st);
            assert!(r > 0 && r <= mins * 60);
            assert_eq!((minute as u32 * 60 + 17 + r) % (mins * 60), 0);
        }
    }
}

#[test]
fn get_seconds_until_next_boundary_in_range() {
    let r = get_seconds_until_next_boundary(30, 0);
    assert!(r > 0 && r <= 1800);
}

#[test]
fn more_rules_keep_quiet_hours() {
    let now = at(3, 23, 0, 0, 0);
    let c = quiet_config("true,every_day,22,6,1111111,true");
    assert!(is_quiet_at(&c, &now));
    let more = quiet_config("true,every_day,22,6,1111111,true;false,custom,1,2,0000000,false");
    assert!(is_quiet_at(&more, &now));
    let junk = quiet_config("true,every_day,22,6,1111111,true;not a rule");
    assert!(is_quiet_at(&junk, &now));
}
