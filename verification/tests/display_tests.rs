use autozikr::config::QuietHoursRule;
use autozikr::display::{countdown_text, mute_range_text, preset_label, tray_left_click, window_position, TrayClick};
use autozikr::system::{audio_busy_in, dark_style_in, in_app_bundle, launch_agent_plist, lid_closed_in, lock_file_path};

#[test]
fn countdown_texts() {
    assert_eq!(countdown_text(0), "00:00");
    assert_eq!(countdown_text(65), "01:05");
    assert_eq!(countdown_text(3600), "60:00");
    assert_eq!(countdown_text(6000), "100:00");
}

#[test]
fn preset_labels() {
    assert_eq!(preset_label("every_day"), "Every Day ▼");
    assert_eq!(preset_label("work_days"), "Work Days ▼");
    assert_eq!(preset_label("weekends"), "Weekends ▼");
    assert_eq!(preset_label("custom"), "Custom ▼");
    assert_eq!(preset_label("anything"), "Custom ▼");
}

#[test]
fn mute_range_texts() {
    let mut r = QuietHoursRule { enabled: true, preset: "custom".into(), start_hour: 22, end_hour: 8, days: [true; 7], overnight: true };
    assert_eq!(mute_range_text(&r), "22:00 - 08:00 (Overnight)");
    r.overnight = false;
    r.start_hour = 9;
    r.end_hour = 17;
    assert_eq!(mute_range_text(&r), "09:00 - 17:00");
}

#[test]
fn window_positions() {
    assert_eq!(window_position(1000, 1000, 0, 0, 1920, 1040), (790, 420));
    assert_eq!(window_position(100, 1000, 0, 0, 1920, 1040), (0, 420));
    assert_eq!(window_position(1900, 10, 0, 40, 1920, 1080), (1500, 40));
    assert_eq!(window_position(500, -3, -5, -10, 1920, 5), (290, -10));
    assert_eq!(window_position(500, -2, -5, -10, 1920, 5), (290, -615));
}

#[test]
fn tray_clicks() {
    assert_eq!(tray_left_click(true, 0), TrayClick::Hide);
    assert_eq!(tray_left_click(false, 100), TrayClick::Keep);
    assert_eq!(tray_left_click(false, 250), TrayClick::Show);
}

#[test]
fn system_reports() {
    assert!(audio_busy_in("pid 1(coreaudiod): PreventUserIdleSystemSleep named: x"));
    assert!(!audio_busy_in("PreventUserIdleSystemSleep only"));
    assert!(lid_closed_in("| \"AppleClamshellState\" = Yes\n"));
    assert!(!lid_closed_in("\"AppleClamshellState\" = No"));
    assert!(dark_style_in("Dark\n"));
    assert!(!dark_style_in("Light"));
    assert!(in_app_bundle("/Applications/AutoZikr.app/Contents/MacOS"));
    assert!(!in_app_bundle("/usr/local/bin"));
}

#[test]
fn plist_and_lock_paths() {
    let p = launch_agent_plist("/Apps/AutoZikr");
    assert!(p.starts_with("<?xml version=\"1.0\" encoding=\"UTF-8\"?>\n<!DOCTYPE plist"));
    assert!(p.contains("\t\t<string>/Apps/AutoZikr</string>\n\t</array>"));
    assert!(p.ends_with("<true/>\n</dict>\n</plist>"));
    assert_eq!(lock_file_path(Some("/Users/me")), "/Users/me/.autozikr.lock");
    assert_eq!(lock_file_path(None), "/tmp/autozikr.lock");
}
