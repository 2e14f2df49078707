use autozikr::config::{parse_rules, AppConfig, QuietHoursRule};
use autozikr::panel::Panel;
use autozikr::schedule::{is_quiet_at, SystemTime};

fn at(hour: u16, minute: u16, second: u16) -> SystemTime {
    SystemTime { year: 2026, month: 3, day_of_week: 2, day: 10, hour, minute, second, milliseconds: 0 }
}

fn panel() -> Panel {
    Panel::new(AppConfig::default(), 100)
}

#[test]
fn new_panel_reads_rules() {
    let p = panel();
    assert_eq!(p.quiet_hours_rules.len(), 2);
    assert_eq!(p.remaining_seconds, 100);
    assert_eq!(p.total_seconds, 1800);
    assert_eq!(p.current_tab, 0);
    assert!(!p.is_dirty);
}

#[test]
fn select_tab() {
    let mut p = panel();
    assert!(!p.select_tab(0));
    assert!(p.select_tab(1));
    assert_eq!(p.current_tab, 1);
    assert!(!p.select_tab(2));
    assert_eq!(p.current_tab, 1);
}

#[test]
fn toggle_enabled_restarts_countdown() {
    let mut p = panel();
    p.toggle_enabled(&at(10, 20, 30));
    assert!(!p.config.enabled);
    assert!(p.is_dirty);
    assert_eq!(p.remaining_seconds, 570);
    assert_eq!(p.total_seconds, 1800);
}

#[test]
fn toggle_from_tray_full_countdown() {
    let mut p = panel();
    p.toggle_enabled_from_tray();
    assert!(!p.config.enabled);
    assert_eq!(p.remaining_seconds, 1800);
    assert_eq!(p.total_seconds, 1800);
}

#[test]
fn rule_edits_update_config_text() {
    let mut p = panel();
    p.toggle_rule_enabled(0);
    assert!(!p.quiet_hours_rules[0].enabled);
    assert_eq!(p.config.quiet_hours_rules, "false,every_day,22,11,1111111,true;true,work_days,9,17,1111100,false");
    p.delete_rule(1);
    assert_eq!(p.config.quiet_hours_rules, "false,every_day,22,11,1111111,true");
    p.add_rule();
    assert_eq!(p.config.quiet_hours_rules, "false,every_day,22,11,1111111,true;true,every_day,22,8,1111111,true");
    assert_eq!(parse_rules(&p.config.quiet_hours_rules), p.quiet_hours_rules);
    assert!(p.is_dirty);
}

#[test]
fn overnight_toggle_swaps_hours_and_twice_restores() {
    let mut p = panel();
    let before: QuietHoursRule = p.quiet_hours_rules[1].clone();
    p.toggle_rule_overnight(1);
    assert!(p.quiet_hours_rules[1].overnight);
    assert_eq!((p.quiet_hours_rules[1].start_hour, p.quiet_hours_rules[1].end_hour), (17, 9));
    p.toggle_rule_overnight(1);
    assert_eq!(p.quiet_hours_rules[1], before);
}

#[test]
fn presets_and_custom_days() {
    let mut p = panel();
    p.choose_preset(0, 1002);
    assert_eq!(p.quiet_hours_rules[0].preset, "weekends");
    assert_eq!(p.quiet_hours_rules[0].days, [false, false, false, false, false, true, true]);
    assert!(!p.rule_days_editable(0));
    p.choose_preset(0, 1003);
    assert!(p.rule_days_editable(0));
    assert_eq!(p.quiet_hours_rules[0].days, [false, false, false, false, false, true, true]);
    p.toggle_rule_day(0, 0);
    assert_eq!(p.quiet_hours_rules[0].days, [true, false, false, false, false, true, true]);
    p.choose_preset(0, 1001);
    assert_eq!(p.quiet_hours_rules[0].days, [true, true, true, true, true, false, false]);
    p.choose_preset(0, 1000);
    assert_eq!(p.quiet_hours_rules[0].days, [true; 7]);
    let text = p.config.quiet_hours_rules.clone();
    p.choose_preset(0, 999);
    assert_eq!(p.quiet_hours_rules[0].preset, "every_day");
    assert_eq!(p.config.quiet_hours_rules, text);
    p.choose_preset(5, 1002);
    assert_eq!(p.config.quiet_hours_rules, text);
}

#[test]
fn hour_drag_sets_overnight() {
    let mut p = panel();
    p.begin_hour_drag(1, false);
    assert_eq!(p.active_rule_index, Some(1));
    p.drag_hour(6);
    assert_eq!(p.quiet_hours_rules[1].end_hour, 6);
    assert!(p.quiet_hours_rules[1].overnight);
    p.drag_hour(20);
    assert!(!p.quiet_hours_rules[1].overnight);
    assert!(p.release());
    assert!(!p.is_dirty);
    assert_eq!(p.active_rule_index, None);
    assert!(!p.release());
}

#[test]
fn sliders_and_switches() {
    let mut p = panel();
    p.begin_volume_drag(35);
    assert!(p.volume_dragging);
    p.drag_volume(40);
    assert_eq!(p.config.volume, 40);
    p.begin_interval_drag(15, &at(8, 14, 59));
    assert_eq!(p.config.interval_mins, 15);
    assert_eq!(p.total_seconds, 900);
    assert_eq!(p.remaining_seconds, 1);
    p.set_interval(5, &at(8, 0, 0));
    assert_eq!(p.remaining_seconds, 300);
    assert_eq!(p.total_seconds, 300);
    assert!(p.release());
    p.toggle_run_at_startup();
    assert!(p.config.run_at_startup);
    p.toggle_quiet_hours();
    assert!(p.config.quiet_hours_enabled);
    assert!(p.take_dirty());
    assert!(!p.take_dirty());
}

#[test]
fn countdown_ticks() {
    let now = at(12, 0, 0);
    let mut p = Panel::new(AppConfig::default(), 2);
    assert!(!p.tick(&now));
    assert_eq!(p.remaining_seconds, 1);
    assert!(!p.tick(&now));
    assert!(p.tick(&now));
    assert_eq!(p.remaining_seconds, 0);
    p.restart_countdown(&at(12, 10, 0));
    assert_eq!(p.remaining_seconds, 1200);
    assert_eq!(p.total_seconds, 1800);
    p.config.enabled = false;
    assert!(!p.tick(&now));
    assert_eq!(p.remaining_seconds, 1200);
}

#[test]
fn countdown_paused_in_quiet_hours() {
    let mut c = AppConfig::default();
    c.quiet_hours_enabled = true;
    c.quiet_hours_rules = "true,work_days,9,17,1111100,false".to_string();
    let mut p = Panel::new(c, 5);
    assert!(!p.tick(&at(10, 0, 0)));
    assert_eq!(p.remaining_seconds, 5);
    assert!(!p.tick(&at(18, 0, 0)));
    assert_eq!(p.remaining_seconds, 4);
}

#[test]
fn overnight_switch_mutes_the_rest_of_the_day() {
    let mut c = AppConfig::default();
    c.quiet_hours_enabled = true;
    c.quiet_hours_rules = "true,every_day,9,17,1111111,false".to_string();
    let mut p = Panel::new(c, 5);
    let before: Vec<bool> = (0..24).map(|h| is_quiet_at(&p.config, &at(h, 30, 0))).collect();
    p.toggle_rule_overnight(0);
    let after: Vec<bool> = (0..24).map(|h| is_quiet_at(&p.config, &at(h, 30, 0))).collect();
    for h in 0..24 {
        assert_eq!(after[h], !before[h]);
    }
    assert!(before[9] && !before[17] && after[17] && !after[9]);
}

#[test]
fn dismissed_preset_menu_changes_nothing() {
    let mut p = panel();
    assert!(!p.take_dirty());
    let rules = p.quiet_hours_rules.clone();
    let text = p.config.quiet_hours_rules.clone();
    p.choose_preset(0, 0);
    assert_eq!(p.quiet_hours_rules, rules);
    assert_eq!(p.config.quiet_hours_rules, text);
    assert!(!p.take_dirty());
    p.choose_preset(0, 1002);
    assert!(p.take_dirty());
}

#[test]
fn edits_keep_rule_list_in_step() {
    let mut p = panel();
    let in_step = |p: &Panel| parse_rules(&p.config.quiet_hours_rules) == p.quiet_hours_rules;
    assert!(in_step(&p));
    p.toggle_rule_enabled(0);
    assert!(in_step(&p));
    p.toggle_rule_day(1, 3);
    assert!(in_step(&p));
    p.toggle_rule_overnight(0);
    assert!(in_step(&p));
    p.choose_preset(1, 1001);
    assert!(in_step(&p));
    p.add_rule();
    assert!(in_step(&p));
    p.begin_hour_drag(2, true);
    p.drag_hour(5);
    p.sync_rules();
    assert!(in_step(&p));
    p.delete_rule(0);
    assert!(in_step(&p));
    p.toggle_quiet_hours();
    p.drag_volume(40);
    assert!(in_step(&p));
    assert_eq!(p.quiet_hours_rules.len(), 2);
}

#[test]
fn header_switch_then_immediate_write_leaves_no_mark() {
    let mut p = panel();
    p.toggle_enabled(&at(9, 0, 0));
    assert!(p.take_dirty());
    assert!(!p.is_dirty);
    assert!(!p.config.enabled);
}

#[test]
fn tick_with_quiet_hours_off_takes_any_day_number() {
    let mut p = Panel::new(AppConfig::default(), 1);
    let mut odd = at(3, 0, 0);
    odd.day_of_week = 9;
    assert!(!p.tick(&odd));
    assert_eq!(p.remaining_seconds, 0);
    assert!(p.tick(&odd));
}
