use autozikr::config::{parse_rules, serialize_rules, AppConfig, QuietHoursRule};

fn rule(enabled: bool, preset: &str, start: u32, end: u32, days: [bool; 7], overnight: bool) -> QuietHoursRule {
    QuietHoursRule { enabled, preset: preset.to_string(), start_hour: start, end_hour: end, days, overnight }
}

#[test]
fn serialize_writes_six_fields() {
    let r = rule(true, "work_days", 9, 17, [true, true, true, true, true, false, false], false);
    assert_eq!(r.serialize(), "true,work_days,9,17,1111100,false");
}

#[test]
fn from_string_reads_a_rule() {
    let r = QuietHoursRule::from_string("false,custom,22,7,1010101,true").unwrap();
    assert_eq!(r, rule(false, "custom", 22, 7, [true, false, true, false, true, false, true], true));
}

#[test]
fn from_string_round_trip() {
    let r = rule(true, "weekends", 0, 23, [false, false, false, false, false, true, true], false);
    assert_eq!(QuietHoursRule::from_string(&r.serialize()), Some(r));
}

#[test]
fn from_string_rejects_wrong_field_count() {
    assert_eq!(QuietHoursRule::from_string("true,every_day,22,11,1111111"), None);
    assert_eq!(QuietHoursRule::from_string("true,every_day,22,11,1111111,true,x"), None);
    assert_eq!(QuietHoursRule::from_string(""), None);
}

#[test]
fn from_string_rejects_bad_bool() {
    assert_eq!(QuietHoursRule::from_string("yes,every_day,22,11,1111111,true"), None);
    assert_eq!(QuietHoursRule::from_string("true,every_day,22,11,1111111,True"), None);
}

#[test]
fn from_string_rejects_bad_hours() {
    assert_eq!(QuietHoursRule::from_string("true,every_day,-1,11,1111111,true"), None);
    assert_eq!(QuietHoursRule::from_string("true,every_day,22,,1111111,true"), None);
    assert_eq!(QuietHoursRule::from_string("true,every_day,4294967296,1,1111111,true"), None);
    assert_eq!(QuietHoursRule::from_string("true,every_day,+,1,1111111,true"), None);
}

#[test]
fn from_string_accepts_plus_sign_and_large_hours() {
    let r = QuietHoursRule::from_string("true,x,+5,4294967295,0000000,false").unwrap();
    assert_eq!(r.start_hour, 5);
    assert_eq!(r.end_hour, 4294967295);
}

#[test]
fn from_string_rejects_wrong_day_count() {
    assert_eq!(QuietHoursRule::from_string("true,every_day,22,11,111111,true"), None);
    assert_eq!(QuietHoursRule::from_string("true,every_day,22,11,11111111,true"), None);
}

#[test]
fn from_string_days_other_than_one_are_off() {
    let r = QuietHoursRule::from_string("true,custom,1,2,1x0y1z1,false").unwrap();
    assert_eq!(r.days, [true, false, false, false, true, false, true]);
}

#[test]
fn parse_rules_of_default_list() {
    let rules = parse_rules(&AppConfig::default().quiet_hours_rules);
    assert_eq!(rules.len(), 2);
    assert_eq!(rules[0], rule(true, "every_day", 22, 11, [true; 7], true));
    assert_eq!(rules[1], rule(true, "work_days", 9, 17, [true, true, true, true, true, false, false], false));
}

#[test]
fn parse_rules_skips_bad_pieces() {
    let rules = parse_rules("garbage;true,custom,1,2,1111111,false;;");
    assert_eq!(rules, vec![rule(true, "custom", 1, 2, [true; 7], false)]);
}

#[test]
fn parse_rules_empty_text() {
    assert!(parse_rules("").is_empty());
}

#[test]
fn serialize_rules_round_trip() {
    let rules = vec![
        rule(true, "every_day", 22, 8, [true; 7], true),
        rule(false, "custom", 3, 4, [false, true, false, true, false, true, false], false),
    ];
    let text = serialize_rules(&rules);
    assert_eq!(text, "true,every_day,22,8,1111111,true;false,custom,3,4,0101010,false");
    assert_eq!(parse_rules(&text), rules);
    assert_eq!(serialize_rules(&Vec::new()), "");
}

#[test]
fn default_config_values() {
    let c = AppConfig::default();
    assert!(c.enabled);
    assert_eq!(c.interval_mins, 30);
    assert_eq!(c.volume, 80);
    assert!(!c.quiet_hours_enabled);
    assert_eq!(c.quiet_hours_rules, "true,every_day,22,11,1111111,true;true,work_days,9,17,1111100,false");
    assert!(!c.run_at_startup);
    assert!(c.first_launch);
}

#[test]
fn ini_text_of_default() {
    assert_eq!(
        AppConfig::default().to_ini_string(),
        "[Settings]\nenabled = true\ninterval_mins = 30\nvolume = 80\nquiet_hours_enabled = false\nquiet_hours_rules = true,every_day,22,11,1111111,true;true,work_days,9,17,1111100,false\nrun_at_startup = false\nfirst_launch = true\n"
    );
}

#[test]
fn ini_round_trip() {
    let c = AppConfig {
        enabled: false,
        interval_mins: 15,
        volume: 100,
        quiet_hours_enabled: true,
        quiet_hours_rules: "true,custom,1,2,1000001,false".to_string(),
        run_at_startup: true,
        first_launch: false,
    };
    let back = AppConfig::load_from_str(&c.to_ini_string());
    assert_eq!(back.enabled, c.enabled);
    assert_eq!(back.interval_mins, c.interval_mins);
    assert_eq!(back.volume, c.volume);
    assert_eq!(back.quiet_hours_enabled, c.quiet_hours_enabled);
    assert_eq!(back.quiet_hours_rules, c.quiet_hours_rules);
    assert_eq!(back.run_at_startup, c.run_at_startup);
    assert_eq!(back.first_launch, c.first_launch);
}

#[test]
fn load_skips_comments_and_unknown_keys() {
    let c = AppConfig::load_from_str("; comment\n# volume = 5\n\nunknown = 1\nno equals sign\nVOLUME = 40\r\n  Interval_Mins=  10  \n");
    assert_eq!(c.volume, 40);
    assert_eq!(c.interval_mins, 10);
    assert!(c.enabled);
}

#[test]
fn load_uses_defaults_for_unreadable_values() {
    let c = AppConfig::load_from_str("enabled = no\ninterval_mins = ten\nvolume = x\nquiet_hours_enabled = 1\nfirst_launch = maybe\nrun_at_startup = TRUE\n");
    assert!(c.enabled);
    assert_eq!(c.interval_mins, 30);
    assert_eq!(c.volume, 80);
    assert!(!c.quiet_hours_enabled);
    assert!(c.first_launch);
    assert!(!c.run_at_startup);
}

#[test]
fn load_caps_volume() {
    assert_eq!(AppConfig::load_from_str("volume = 250").volume, 100);
    assert_eq!(AppConfig::load_from_str("volume = 99").volume, 99);
}

#[test]
fn load_value_keeps_later_equals_signs() {
    let c = AppConfig::load_from_str("quiet_hours_rules = a=b ; c\n");
    assert_eq!(c.quiet_hours_rules, "a=b ; c");
}

#[test]
fn load_later_line_wins() {
    let c = AppConfig::load_from_str("volume = 10\nvolume = 20\n");
    assert_eq!(c.volume, 20);
}

#[test]
fn load_trims_unicode_whitespace() {
    let c = AppConfig::load_from_str("\u{3000}volume\u{a0}=\u{2003}55\u{85}\n");
    assert_eq!(c.volume, 55);
}

#[test]
fn ini_round_trip_of_default() {
    let d = AppConfig::default();
    let back = AppConfig::load_from_str(&d.to_ini_string());
    assert_eq!(back.to_ini_string(), d.to_ini_string());
}

#[test]
fn ini_round_trip_needs_volume_at_most_100() {
    let mut c = AppConfig::default();
    c.volume = 150;
    assert_eq!(AppConfig::load_from_str(&c.to_ini_string()).volume, 100);
}

#[test]
fn ini_round_trip_needs_trimmed_rule_list() {
    let mut c = AppConfig::default();
    c.quiet_hours_rules = "  x ".to_string();
    assert_eq!(AppConfig::load_from_str(&c.to_ini_string()).quiet_hours_rules, "x");
    c.quiet_hours_rules = String::new();
    assert_eq!(AppConfig::load_from_str(&c.to_ini_string()).quiet_hours_rules, "");
}

#[test]
fn rule_round_trip_needs_comma_free_preset() {
    let r = QuietHoursRule { enabled: true, preset: "a,b".into(), start_hour: 1, end_hour: 2, days: [true; 7], overnight: false };
    assert_eq!(QuietHoursRule::from_string(&r.serialize()), None);
}
