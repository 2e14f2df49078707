//! The control panel's state and the changes that its controls make, and
//! the once-a-second reminder countdown.  Where a control is hit and what
//! the pointer's position reads as is worked out by the caller; these
//! functions decide what then changes.
use vstd::prelude::*;
use crate::config::{
    rule_storable, rule_views, rules_from_text, rules_text, serialize_rules, AppConfig,
    ConfigView, QuietHoursRule, RuleView, lemma_parsed_rules_storable, lemma_rules_round_trip,
    parse_rules,
};
use crate::schedule::{
    boundary_spec, is_quiet_at, no_enabled_rule, quiet_at, rule_mutes, seconds_until_boundary_at, SystemTime,
};
use crate::display::preset_label_spec;
use crate::text::chars_equal_str;
use crate::text::chars_of;

verus! {

/// What the panel shows and edits.
pub struct Panel {
    pub config: AppConfig,
    /// Seconds left before the next reminder.
    pub remaining_seconds: u32,
    /// Length of the current countdown.
    pub total_seconds: u32,
    /// 0: dashboard, 1: settings.
    pub current_tab: u32,
    pub volume_dragging: bool,
    pub interval_dragging: bool,
    /// Settings changed and not yet written.  A caller that writes the
    /// settings at once after each change takes the mark back with
    /// [`Panel::take_dirty`].
    pub is_dirty: bool,
    /// The rules being edited; the config holds their text.
    pub quiet_hours_rules: Vec<QuietHoursRule>,
    /// The rule whose hour slider is being dragged.
    pub active_rule_index: Option<usize>,
    pub dragging_start_hour: bool,
    pub dragging_end_hour: bool,
    pub dashboard_scroll: i32,
    pub dashboard_dragging: bool,
    pub scrollbar_dragging: bool,
    pub drag_start_scroll: i32,
}

/// An interval that the countdown can run on.
pub open spec fn valid_interval(mins: u32) -> bool {
    0 < mins <= u32::MAX / 60
}

/// The rule that "+ Add Rule" appends: every day from 22 to 8, overnight.
pub open spec fn new_rule_spec() -> RuleView {
    RuleView {
        enabled: true,
        preset: "every_day"@,
        start_hour: 22,
        end_hour: 8,
        days: Seq::new(7, |i: int| true),
        overnight: true,
    }
}

/// The days a preset choice selects; `None` for a choice that keeps them.
pub open spec fn preset_days(choice: u32) -> Option<Seq<bool>> {
    if choice == 1000 {
        Some(Seq::new(7, |i: int| true))
    } else if choice == 1001 {
        Some(Seq::new(7, |i: int| i < 5))
    } else if choice == 1002 {
        Some(Seq::new(7, |i: int| i >= 5))
    } else {
        None
    }
}

/// The preset name a preset choice selects.
pub open spec fn preset_name(choice: u32) -> Seq<char> {
    if choice == 1000 {
        "every_day"@
    } else if choice == 1001 {
        "work_days"@
    } else if choice == 1002 {
        "weekends"@
    } else {
        "custom"@
    }
}

/// A rule after a preset choice: choices 1000 to 1003 pick every day,
/// work days, weekends and custom days; another choice changes nothing.
pub open spec fn with_preset(r: RuleView, choice: u32) -> RuleView {
    if 1000 <= choice <= 1003 {
        RuleView {
            preset: preset_name(choice),
            days: match preset_days(choice) {
                Some(d) => d,
                None => r.days,
            },
            ..r
        }
    } else {
        r
    }
}

/// The rule with its overnight flag flipped and its hours swapped.
pub open spec fn with_overnight_flipped(r: RuleView) -> RuleView {
    RuleView { overnight: !r.overnight, start_hour: r.end_hour, end_hour: r.start_hour, ..r }
}

/// The rule with the dragged end of its range set to `hour`; the range
/// crosses midnight exactly when its start is after its end.
pub open spec fn with_dragged_hour(r: RuleView, start: bool, end: bool, hour: u32) -> RuleView {
    let s = if start { hour } else { r.start_hour };
    let e = if !start && end { hour } else { r.end_hour };
    RuleView { start_hour: s, end_hour: e, overnight: s > e, ..r }
}

fn new_rule() -> (res: QuietHoursRule)
    ensures
        res@ == new_rule_spec(),
{
    let r = QuietHoursRule {
        enabled: true,
        preset: String::from_str("every_day"),
        start_hour: 22,
        end_hour: 8,
        days: [true, true, true, true, true, true, true],
        overnight: true,
    };
    assert(r@ =~= new_rule_spec());
    r
}

/// The mathematical content of a [`Panel`].
#[verifier::ext_equal]
pub struct PanelView {
    pub config: ConfigView,
    pub remaining_seconds: u32,
    pub total_seconds: u32,
    pub current_tab: u32,
    pub volume_dragging: bool,
    pub interval_dragging: bool,
    pub is_dirty: bool,
    pub rules: Seq<RuleView>,
    pub active_rule_index: Option<usize>,
    pub dragging_start_hour: bool,
    pub dragging_end_hour: bool,
    pub dashboard_scroll: i32,
    pub dashboard_dragging: bool,
    pub scrollbar_dragging: bool,
    pub drag_start_scroll: i32,
}

impl View for Panel {
    type V = PanelView;

    open spec fn view(&self) -> PanelView {
        PanelView {
            config: self.config@,
            remaining_seconds: self.remaining_seconds,
            total_seconds: self.total_seconds,
            current_tab: self.current_tab,
            volume_dragging: self.volume_dragging,
            interval_dragging: self.interval_dragging,
            is_dirty: self.is_dirty,
            rules: rule_views(self.quiet_hours_rules@),
            active_rule_index: self.active_rule_index,
            dragging_start_hour: self.dragging_start_hour,
            dragging_end_hour: self.dragging_end_hour,
            dashboard_scroll: self.dashboard_scroll,
            dashboard_dragging: self.dashboard_dragging,
            scrollbar_dragging: self.scrollbar_dragging,
            drag_start_scroll: self.drag_start_scroll,
        }
    }
}

/// The panel holding `rules`, the config's rule list written from them,
/// and the settings marked changed.
pub open spec fn with_rules(p: PanelView, rules: Seq<RuleView>) -> PanelView {
    PanelView {
        rules,
        config: ConfigView { quiet_hours_rules: rules_text(rules), ..p.config },
        is_dirty: true,
        ..p
    }
}

/// The panel with the settings `c`, marked changed.
pub open spec fn with_config(p: PanelView, c: ConfigView) -> PanelView {
    PanelView { config: c, is_dirty: true, ..p }
}

impl Panel {
    /// The panel opened on the dashboard, showing `config`, its rules read
    /// from the config's rule list and a countdown of `remaining` seconds.
    pub fn new(config: AppConfig, remaining: u32) -> (res: Panel)
        requires
            config.interval_mins <= u32::MAX / 60,
        ensures
            res@ == (PanelView {
                config: config@,
                remaining_seconds: remaining,
                total_seconds: (config.interval_mins * 60) as u32,
                current_tab: 0,
                volume_dragging: false,
                interval_dragging: false,
                is_dirty: false,
                rules: rules_from_text(config@.quiet_hours_rules),
                active_rule_index: None,
                dragging_start_hour: false,
                dragging_end_hour: false,
                dashboard_scroll: 0,
                dashboard_dragging: false,
                scrollbar_dragging: false,
                drag_start_scroll: 0,
            }),
            rules_in_sync(res@),
    {
        let rules = parse_rules(config.quiet_hours_rules.as_str());
        let total = config.interval_mins * 60;
        Panel {
            config,
            remaining_seconds: remaining,
            total_seconds: total,
            current_tab: 0,
            volume_dragging: false,
            interval_dragging: false,
            is_dirty: false,
            quiet_hours_rules: rules,
            active_rule_index: None,
            dragging_start_hour: false,
            dragging_end_hour: false,
            dashboard_scroll: 0,
            dashboard_dragging: false,
            scrollbar_dragging: false,
            drag_start_scroll: 0,
        }
    }

    /// Shows tab `tab` when it is one of the two tabs and not the one
    /// shown; says whether it changed.
    pub fn select_tab(&mut self, tab: u32) -> (changed: bool)
        ensures
            changed == (tab < 2 && old(self)@.current_tab != tab),
            final(self)@ == if changed {
                PanelView { current_tab: tab, ..old(self)@ }
            } else {
                old(self)@
            },
    {
        if tab < 2 && self.current_tab != tab {
            self.current_tab = tab;
            true
        } else {
            false
        }
    }

    /// Writes the rules' text into the config and marks the settings
    /// changed.  When every rule is storable, reading the config's rule
    /// list gives the rules back.
    pub fn sync_rules(&mut self)
        ensures
            final(self)@ == with_rules(old(self)@, old(self)@.rules),
            (forall|i: int|
                0 <= i < final(self)@.rules.len() ==> rule_storable(#[trigger] final(self)@.rules[i]))
                ==> rules_from_text(final(self)@.config.quiet_hours_rules) == final(self)@.rules,
    {
        self.config.quiet_hours_rules = serialize_rules(&self.quiet_hours_rules);
        self.is_dirty = true;
        proof {
            let rs = rule_views(self.quiet_hours_rules@);
            if forall|i: int| 0 <= i < rs.len() ==> rule_storable(#[trigger] rs[i]) {
                lemma_rules_round_trip(rs);
            }
            assert(self@ =~= with_rules(old(self)@, old(self)@.rules));
        }
    }

    /// Header switch at time `now`: reminders on or off, the countdown
    /// restarted towards the next boundary, the settings marked changed.
    pub fn toggle_enabled(&mut self, now: &SystemTime)
        requires
            valid_interval(old(self).config.interval_mins),
        ensures
            final(self)@ == (PanelView {
                config: ConfigView { enabled: !old(self)@.config.enabled, ..old(self)@.config },
                remaining_seconds: boundary_spec(old(self).config.interval_mins, *now) as u32,
                total_seconds: (old(self).config.interval_mins * 60) as u32,
                is_dirty: true,
                ..old(self)@
            }),
    {
        self.config.enabled = !self.config.enabled;
        self.remaining_seconds = seconds_until_boundary_at(self.config.interval_mins, now);
        self.total_seconds = self.config.interval_mins * 60;
        self.is_dirty = true;
        assert(self@.config =~= ConfigView { enabled: !old(self)@.config.enabled, ..old(self)@.config });
    }

    /// Tray menu "Mute/Unmute": reminders on or off, a full countdown.
    pub fn toggle_enabled_from_tray(&mut self)
        requires
            old(self).config.interval_mins <= u32::MAX / 60,
        ensures
            final(self)@ == (PanelView {
                config: ConfigView { enabled: !old(self)@.config.enabled, ..old(self)@.config },
                remaining_seconds: (old(self).config.interval_mins * 60) as u32,
                total_seconds: (old(self).config.interval_mins * 60) as u32,
                ..old(self)@
            }),
    {
        self.config.enabled = !self.config.enabled;
        self.remaining_seconds = self.config.interval_mins * 60;
        self.total_seconds = self.remaining_seconds;
        assert(self@.config =~= ConfigView { enabled: !old(self)@.config.enabled, ..old(self)@.config });
    }

    /// Quiet-hours master switch.
    pub fn toggle_quiet_hours(&mut self)
        ensures
            final(self)@ == with_config(
                old(self)@,
                ConfigView {
                    quiet_hours_enabled: !old(self)@.config.quiet_hours_enabled,
                    ..old(self)@.config
                },
            ),
    {
        self.config.quiet_hours_enabled = !self.config.quiet_hours_enabled;
        self.is_dirty = true;
        assert(self@.config =~= ConfigView {
            quiet_hours_enabled: !old(self)@.config.quiet_hours_enabled,
            ..old(self)@.config
        });
    }

    /// Rule `i`'s switch.
    pub fn toggle_rule_enabled(&mut self, i: usize)
        requires
            i < old(self).quiet_hours_rules.len(),
        ensures
            final(self)@ == with_rules(
                old(self)@,
                old(self)@.rules.update(
                    i as int,
                    RuleView { enabled: !old(self)@.rules[i as int].enabled, ..old(self)@.rules[i as int] },
                ),
            ),
    {
        let mut r = self.quiet_hours_rules.remove(i);
        r.enabled = !r.enabled;
        self.quiet_hours_rules.insert(i, r);
        assert(self@.rules =~= old(self)@.rules.update(
            i as int,
            RuleView { enabled: !old(self)@.rules[i as int].enabled, ..old(self)@.rules[i as int] },
        ));
        self.sync_rules();
    }

    /// Rule `i`'s delete button.
    pub fn delete_rule(&mut self, i: usize)
        requires
            i < old(self).quiet_hours_rules.len(),
        ensures
            final(self)@ == with_rules(old(self)@, old(self)@.rules.remove(i as int)),
    {
        self.quiet_hours_rules.remove(i);
        assert(self@.rules =~= old(self)@.rules.remove(i as int));
        self.sync_rules();
    }

    /// Whether rule `i`'s days can be picked one by one (its preset is
    /// `custom`).
    pub fn rule_days_editable(&self, i: usize) -> (res: bool)
        requires
            i < self.quiet_hours_rules.len(),
        ensures
            res == (self@.rules[i as int].preset == "custom"@),
    {
        let p = chars_of(self.quiet_hours_rules[i].preset.as_str());
        chars_equal_str(&p, "custom")
    }

    /// Rule `i`'s day bubble `d` (Monday first).
    pub fn toggle_rule_day(&mut self, i: usize, d: usize)
        requires
            i < old(self).quiet_hours_rules.len(),
            d < 7,
        ensures
            final(self)@ == with_rules(
                old(self)@,
                old(self)@.rules.update(
                    i as int,
                    RuleView {
                        days: old(self)@.rules[i as int].days.update(
                            d as int,
                            !old(self)@.rules[i as int].days[d as int],
                        ),
                        ..old(self)@.rules[i as int]
                    },
                ),
            ),
    {
        let mut r = self.quiet_hours_rules.remove(i);
        let v = !r.days[d];
        r.days[d] = v;
        self.quiet_hours_rules.insert(i, r);
        assert(self@.rules =~= old(self)@.rules.update(
            i as int,
            RuleView {
                days: old(self)@.rules[i as int].days.update(
                    d as int,
                    !old(self)@.rules[i as int].days[d as int],
                ),
                ..old(self)@.rules[i as int]
            },
        ));
        self.sync_rules();
    }

    /// Starts dragging an end of rule `i`'s hour range: the start when the
    /// pointer is nearer the start thumb, else the end.
    pub fn begin_hour_drag(&mut self, i: usize, nearer_start: bool)
        ensures
            final(self)@ == (PanelView {
                active_rule_index: Some(i),
                dragging_start_hour: old(self)@.dragging_start_hour || nearer_start,
                dragging_end_hour: old(self)@.dragging_end_hour || !nearer_start,
                ..old(self)@
            }),
    {
        self.active_rule_index = Some(i);
        if nearer_start {
            self.dragging_start_hour = true;
        } else {
            self.dragging_end_hour = true;
        }
    }

    /// Moves the dragged end of the active rule's range to `hour`; the
    /// range crosses midnight exactly when its start is after its end.
    /// Nothing changes without an active rule in the list.
    pub fn drag_hour(&mut self, hour: u32)
        ensures
            final(self)@ == match old(self)@.active_rule_index {
                Some(k) => if k < old(self)@.rules.len() {
                    PanelView {
                        rules: old(self)@.rules.update(
                            k as int,
                            with_dragged_hour(
                                old(self)@.rules[k as int],
                                old(self)@.dragging_start_hour,
                                old(self)@.dragging_end_hour,
                                hour,
                            ),
                        ),
                        ..old(self)@
                    }
                } else {
                    old(self)@
                },
                None => old(self)@,
            },
    {
        match self.active_rule_index {
            Some(k) => {
                if k < self.quiet_hours_rules.len() {
                    let mut r = self.quiet_hours_rules.remove(k);
                    if self.dragging_start_hour {
                        r.start_hour = hour;
                    } else if self.dragging_end_hour {
                        r.end_hour = hour;
                    }
                    r.overnight = r.start_hour > r.end_hour;
                    self.quiet_hours_rules.insert(k, r);
                    assert(self@.rules =~= old(self)@.rules.update(
                        k as int,
                        with_dragged_hour(
                            old(self)@.rules[k as int],
                            old(self)@.dragging_start_hour,
                            old(self)@.dragging_end_hour,
                            hour,
                        ),
                    ));
                }
            },
            None => {},
        }
    }

    /// Rule `i`'s overnight switch: the flag flips and the hours swap.
    pub fn toggle_rule_overnight(&mut self, i: usize)
        requires
            i < old(self).quiet_hours_rules.len(),
        ensures
            final(self)@ == with_rules(
                old(self)@,
                old(self)@.rules.update(i as int, with_overnight_flipped(old(self)@.rules[i as int])),
            ),
    {
        let mut r = self.quiet_hours_rules.remove(i);
        r.overnight = !r.overnight;
        let s = r.start_hour;
        r.start_hour = r.end_hour;
        r.end_hour = s;
        self.quiet_hours_rules.insert(i, r);
        assert(self@.rules =~= old(self)@.rules.update(
            i as int,
            with_overnight_flipped(old(self)@.rules[i as int]),
        ));
        self.sync_rules();
    }

    /// "+ Add Rule": appends a rule muting every night from 22 to 8.
    pub fn add_rule(&mut self)
        ensures
            final(self)@ == with_rules(old(self)@, old(self)@.rules.push(new_rule_spec())),
    {
        let r = new_rule();
        self.quiet_hours_rules.push(r);
        assert(self@.rules =~= old(self)@.rules.push(new_rule_spec()));
        self.sync_rules();
    }

    /// A choice from rule `i`'s preset menu (1000 every day, 1001 work
    /// days, 1002 weekends, 1003 custom; 0 when the menu was dismissed).
    /// Nothing changes when the menu was dismissed or there is no rule `i`.
    pub fn choose_preset(&mut self, i: usize, choice: u32)
        ensures
            final(self)@ == if choice > 0 && i < old(self)@.rules.len() {
                with_rules(
                    old(self)@,
                    old(self)@.rules.update(i as int, with_preset(old(self)@.rules[i as int], choice)),
                )
            } else {
                old(self)@
            },
    {
        if choice == 0 || i >= self.quiet_hours_rules.len() {
            return;
        }
        let mut r = self.quiet_hours_rules.remove(i);
        if choice == 1000 {
            r.preset = String::from_str("every_day");
            r.days = [true, true, true, true, true, true, true];
        } else if choice == 1001 {
            r.preset = String::from_str("work_days");
            r.days = [true, true, true, true, true, false, false];
        } else if choice == 1002 {
            r.preset = String::from_str("weekends");
            r.days = [false, false, false, false, false, true, true];
        } else if choice == 1003 {
            r.preset = String::from_str("custom");
        }
        let ghost want = with_preset(old(self)@.rules[i as int], choice);
        assert(r@ =~= want);
        self.quiet_hours_rules.insert(i, r);
        assert(self@.rules =~= old(self)@.rules.update(i as int, want));
        self.sync_rules();
    }

    /// Volume slider pressed at a position that reads as `volume`.
    pub fn begin_volume_drag(&mut self, volume: u32)
        ensures
            final(self)@ == (PanelView {
                volume_dragging: true,
                ..with_config(old(self)@, ConfigView { volume, ..old(self)@.config })
            }),
    {
        self.volume_dragging = true;
        self.config.volume = volume;
        self.is_dirty = true;
        assert(self@.config =~= ConfigView { volume, ..old(self)@.config });
    }

    /// Volume slider dragged to a position that reads as `volume`.
    pub fn drag_volume(&mut self, volume: u32)
        ensures
            final(self)@ == with_config(old(self)@, ConfigView { volume, ..old(self)@.config }),
    {
        self.config.volume = volume;
        self.is_dirty = true;
        assert(self@.config =~= ConfigView { volume, ..old(self)@.config });
    }

    /// Interval slider set to `mins` at time `now`: the countdown restarts
    /// towards the next boundary of the new interval.
    pub fn set_interval(&mut self, mins: u32, now: &SystemTime)
        requires
            valid_interval(mins),
        ensures
            final(self)@ == (PanelView {
                remaining_seconds: boundary_spec(mins, *now) as u32,
                total_seconds: (mins * 60) as u32,
                ..with_config(old(self)@, ConfigView { interval_mins: mins, ..old(self)@.config })
            }),
    {
        self.config.interval_mins = mins;
        self.remaining_seconds = seconds_until_boundary_at(mins, now);
        self.total_seconds = mins * 60;
        self.is_dirty = true;
        assert(self@.config =~= ConfigView { interval_mins: mins, ..old(self)@.config });
    }

    /// Interval slider pressed, at time `now`, at a position that reads as
    /// `mins`.
    pub fn begin_interval_drag(&mut self, mins: u32, now: &SystemTime)
        requires
            valid_interval(mins),
        ensures
            final(self)@ == (PanelView {
                interval_dragging: true,
                remaining_seconds: boundary_spec(mins, *now) as u32,
                total_seconds: (mins * 60) as u32,
                ..with_config(old(self)@, ConfigView { interval_mins: mins, ..old(self)@.config })
            }),
    {
        self.interval_dragging = true;
        self.set_interval(mins, now);
    }

    /// Start-at-login switch.
    pub fn toggle_run_at_startup(&mut self)
        ensures
            final(self)@ == with_config(
                old(self)@,
                ConfigView { run_at_startup: !old(self)@.config.run_at_startup, ..old(self)@.config },
            ),
    {
        self.config.run_at_startup = !self.config.run_at_startup;
        self.is_dirty = true;
        assert(self@.config =~= ConfigView {
            run_at_startup: !old(self)@.config.run_at_startup,
            ..old(self)@.config
        });
    }

    /// Pointer released: drags end.  Says whether the settings are to be
    /// written now (a slider drag ended); they then count as written.
    pub fn release(&mut self) -> (save: bool)
        ensures
            save == (old(self)@.volume_dragging || old(self)@.interval_dragging || old(
                self,
            )@.active_rule_index is Some),
            final(self)@ == (PanelView {
                volume_dragging: false,
                interval_dragging: false,
                active_rule_index: None,
                dragging_start_hour: old(self)@.dragging_start_hour && old(
                    self,
                )@.active_rule_index is None,
                dragging_end_hour: old(self)@.dragging_end_hour && old(self)@.active_rule_index is None,
                dashboard_dragging: false,
                scrollbar_dragging: false,
                is_dirty: old(self)@.is_dirty && !save,
                ..old(self)@
            }),
    {
        let mut save = false;
        if self.volume_dragging {
            self.volume_dragging = false;
            save = true;
            self.is_dirty = false;
        }
        if self.interval_dragging {
            self.interval_dragging = false;
            save = true;
            self.is_dirty = false;
        }
        if self.active_rule_index.is_some() {
            self.active_rule_index = None;
            self.dragging_start_hour = false;
            self.dragging_end_hour = false;
            save = true;
            self.is_dirty = false;
        }
        self.dashboard_dragging = false;
        self.scrollbar_dragging = false;
        save
    }

    /// Whether settings changed since they were last written; they then
    /// count as written.
    pub fn take_dirty(&mut self) -> (dirty: bool)
        ensures
            dirty == old(self)@.is_dirty,
            final(self)@ == (PanelView { is_dirty: false, ..old(self)@ }),
    {
        let d = self.is_dirty;
        self.is_dirty = false;
        d
    }

    /// One second of the countdown at time `now`: nothing while reminders
    /// are off or quiet hours hold; otherwise one second less, and when
    /// none is left, `true`: a reminder is due (the caller plays it and
    /// calls [`Panel::restart_countdown`]).
    pub fn tick(&mut self, now: &SystemTime) -> (due: bool)
        requires
            now.day_of_week <= 7 || !old(self).config.enabled || !old(self).config.quiet_hours_enabled
                || no_enabled_rule(old(self)@.config),
        ensures
            due == (old(self)@.config.enabled && !quiet_at(old(self)@.config, *now)
                && old(self)@.remaining_seconds == 0),
            final(self)@ == (PanelView {
                remaining_seconds: if old(self)@.config.enabled && !quiet_at(
                    old(self)@.config,
                    *now,
                ) && old(self)@.remaining_seconds > 0 {
                    (old(self)@.remaining_seconds - 1) as u32
                } else {
                    old(self)@.remaining_seconds
                },
                ..old(self)@
            }),
    {
        if !self.config.enabled {
            return false;
        }
        if is_quiet_at(&self.config, now) {
            return false;
        }
        if self.remaining_seconds > 0 {
            self.remaining_seconds = self.remaining_seconds - 1;
            false
        } else {
            true
        }
    }

    /// A new countdown, at time `now`, towards the next reminder boundary.
    pub fn restart_countdown(&mut self, now: &SystemTime)
        requires
            valid_interval(old(self).config.interval_mins),
        ensures
            final(self)@ == (PanelView {
                remaining_seconds: boundary_spec(old(self).config.interval_mins, *now) as u32,
                total_seconds: (old(self).config.interval_mins * 60) as u32,
                ..old(self)@
            }),
    {
        self.remaining_seconds = seconds_until_boundary_at(self.config.interval_mins, now);
        self.total_seconds = self.config.interval_mins * 60;
    }
}


/// Flipping a rule's overnight switch twice gives the rule back.
pub proof fn lemma_overnight_flip_twice(r: RuleView)
    ensures
        with_overnight_flipped(with_overnight_flipped(r)) == r,
{
    assert(with_overnight_flipped(with_overnight_flipped(r)) =~= r);
}

/// The overnight switch turns the hours a switched-on rule mutes on one of
/// its days into the rest of that day.
pub proof fn lemma_overnight_flip_complements(r: RuleView, day: int, m: int)
    requires
        r.enabled,
        0 <= day < r.days.len(),
        r.days[day],
    ensures
        rule_mutes(with_overnight_flipped(r), day, m) == !rule_mutes(r, day, m),
{
}

/// Every edit the panel makes to a storable rule leaves it storable, and
/// the rule it adds is storable; so the config's rule list keeps reading
/// back as the edited rules.
pub proof fn lemma_edits_keep_storable(
    r: RuleView,
    choice: u32,
    start: bool,
    end: bool,
    hour: u32,
    d: int,
)
    requires
        rule_storable(r),
        0 <= d < 7,
    ensures
        rule_storable(with_preset(r, choice)),
        rule_storable(with_overnight_flipped(r)),
        rule_storable(with_dragged_hour(r, start, end, hour)),
        rule_storable(RuleView { enabled: !r.enabled, ..r }),
        rule_storable(RuleView { days: r.days.update(d, !r.days[d]), ..r }),
        rule_storable(new_rule_spec()),
{
    reveal_strlit("every_day");
    reveal_strlit("work_days");
    reveal_strlit("weekends");
    reveal_strlit("custom");
}

/// The panel's rules are what the config's rule list reads as.
pub open spec fn rules_in_sync(p: PanelView) -> bool {
    rules_from_text(p.config.quiet_hours_rules) == p.rules
}

/// A panel whose config is rewritten from storable rules keeps the two in
/// step.
pub proof fn lemma_with_rules_in_sync(p: PanelView, rules: Seq<RuleView>)
    requires
        forall|i: int| 0 <= i < rules.len() ==> rule_storable(#[trigger] rules[i]),
    ensures
        rules_in_sync(with_rules(p, rules)),
{
    lemma_rules_round_trip(rules);
}

/// Every edit of the panel's controls keeps the config's rule list reading
/// back as the panel's rules: the rule switch, delete, a day bubble, the
/// overnight switch, a preset choice, an hour drag followed by writing the
/// rules, "+ Add Rule", and the edits of other settings.
pub proof fn lemma_edits_keep_rules_in_sync(
    p: PanelView,
    i: int,
    d: int,
    choice: u32,
    start: bool,
    end: bool,
    hour: u32,
    c: ConfigView,
)
    requires
        rules_in_sync(p),
        0 <= d < 7,
        c.quiet_hours_rules == p.config.quiet_hours_rules,
    ensures
        0 <= i < p.rules.len() ==> rules_in_sync(
            with_rules(p, p.rules.update(i, RuleView { enabled: !p.rules[i].enabled, ..p.rules[i] })),
        ),
        0 <= i < p.rules.len() ==> rules_in_sync(with_rules(p, p.rules.remove(i))),
        0 <= i < p.rules.len() ==> rules_in_sync(
            with_rules(
                p,
                p.rules.update(i, RuleView { days: p.rules[i].days.update(d, !p.rules[i].days[d]), ..p.rules[i] }),
            ),
        ),
        0 <= i < p.rules.len() ==> rules_in_sync(
            with_rules(p, p.rules.update(i, with_overnight_flipped(p.rules[i]))),
        ),
        0 <= i < p.rules.len() ==> rules_in_sync(
            with_rules(p, p.rules.update(i, with_preset(p.rules[i], choice))),
        ),
        0 <= i < p.rules.len() ==> rules_in_sync(
            with_rules(p, p.rules.update(i, with_dragged_hour(p.rules[i], start, end, hour))),
        ),
        rules_in_sync(with_rules(p, p.rules.push(new_rule_spec()))),
        rules_in_sync(with_config(p, c)),
{
    lemma_parsed_rules_storable(p.config.quiet_hours_rules);
    if 0 <= i < p.rules.len() {
        let r = p.rules[i];
        lemma_edits_keep_storable(r, choice, start, end, hour, d);
        let a = p.rules.update(i, RuleView { enabled: !r.enabled, ..r });
        let b = p.rules.remove(i);
        let e = p.rules.update(i, RuleView { days: r.days.update(d, !r.days[d]), ..r });
        let f = p.rules.update(i, with_overnight_flipped(r));
        let g = p.rules.update(i, with_preset(r, choice));
        let h = p.rules.update(i, with_dragged_hour(r, start, end, hour));
        assert forall|j: int| 0 <= j < b.len() implies rule_storable(#[trigger] b[j]) by {
            assert(b[j] == p.rules[if j < i { j } else { j + 1 }]);
        }
        lemma_with_rules_in_sync(p, a);
        lemma_with_rules_in_sync(p, b);
        lemma_with_rules_in_sync(p, e);
        lemma_with_rules_in_sync(p, f);
        lemma_with_rules_in_sync(p, g);
        lemma_with_rules_in_sync(p, h);
    }
    reveal_strlit("every_day");
    assert(rule_storable(new_rule_spec()));
    let n = p.rules.push(new_rule_spec());
    assert forall|j: int| 0 <= j < n.len() implies rule_storable(#[trigger] n[j]) by {
        if j < p.rules.len() {
            assert(n[j] == p.rules[j]);
        }
    }
    lemma_with_rules_in_sync(p, n);
}

/// The overnight switch flips only the rule's overnight flag and swaps its
/// start and end hours: its switch, preset and days stay as they were.
pub proof fn lemma_overnight_switch_keeps_the_rest(r: RuleView)
    ensures
        with_overnight_flipped(r).overnight == !r.overnight,
        with_overnight_flipped(r).start_hour == r.end_hour,
        with_overnight_flipped(r).end_hour == r.start_hour,
        with_overnight_flipped(r).enabled == r.enabled,
        with_overnight_flipped(r).preset == r.preset,
        with_overnight_flipped(r).days == r.days,
{
}

/// Dragging an hour thumb to `hour` moves the thumb held: with the start
/// thumb held the start hour becomes `hour` and the end hour stays; with
/// only the end thumb held the end hour becomes `hour` and the start hour
/// stays; with neither both stay.  The range then crosses midnight exactly
/// when its start is after its end, and the rule's switch, preset and days
/// stay as they were.
pub proof fn lemma_drag_moves_the_held_thumb(r: RuleView, start: bool, end: bool, hour: u32)
    ensures
        start ==> with_dragged_hour(r, start, end, hour).start_hour == hour
            && with_dragged_hour(r, start, end, hour).end_hour == r.end_hour,
        !start && end ==> with_dragged_hour(r, start, end, hour).end_hour == hour
            && with_dragged_hour(r, start, end, hour).start_hour == r.start_hour,
        !start && !end ==> with_dragged_hour(r, start, end, hour).start_hour == r.start_hour
            && with_dragged_hour(r, start, end, hour).end_hour == r.end_hour,
        with_dragged_hour(r, start, end, hour).overnight == (with_dragged_hour(
            r,
            start,
            end,
            hour,
        ).start_hour > with_dragged_hour(r, start, end, hour).end_hour),
        with_dragged_hour(r, start, end, hour).enabled == r.enabled,
        with_dragged_hour(r, start, end, hour).preset == r.preset,
        with_dragged_hour(r, start, end, hour).days == r.days,
{
}

/// A preset menu item stores the preset it names, whose button then reads
/// as the item: "Every Day" (1000) every day, "Work Days" (1001) Monday to
/// Friday, "Weekends" (1002) Saturday and Sunday, "Custom" (1003) the days
/// as they were.  The rule's switch, hours and overnight flag stay, and any
/// other choice leaves the rule as it was.
pub proof fn lemma_preset_item_stores_its_preset(r: RuleView, choice: u32)
    ensures
        with_preset(r, 1000).preset == "every_day"@,
        with_preset(r, 1001).preset == "work_days"@,
        with_preset(r, 1002).preset == "weekends"@,
        with_preset(r, 1003).preset == "custom"@,
        preset_label_spec(with_preset(r, 1000).preset) == "Every Day ▼"@,
        preset_label_spec(with_preset(r, 1001).preset) == "Work Days ▼"@,
        preset_label_spec(with_preset(r, 1002).preset) == "Weekends ▼"@,
        preset_label_spec(with_preset(r, 1003).preset) == "Custom ▼"@,
        with_preset(r, 1000).days == seq![true, true, true, true, true, true, true],
        with_preset(r, 1001).days == seq![true, true, true, true, true, false, false],
        with_preset(r, 1002).days == seq![false, false, false, false, false, true, true],
        with_preset(r, 1003).days == r.days,
        with_preset(r, choice).enabled == r.enabled,
        with_preset(r, choice).start_hour == r.start_hour,
        with_preset(r, choice).end_hour == r.end_hour,
        with_preset(r, choice).overnight == r.overnight,
        !(1000 <= choice <= 1003) ==> with_preset(r, choice) == r,
{
    reveal_strlit("every_day");
    reveal_strlit("work_days");
    reveal_strlit("weekends");
    reveal_strlit("custom");
    assert("work_days"@[0] != "every_day"@[0]);
    assert("weekends"@[0] != "every_day"@[0]);
    assert("weekends"@[1] != "work_days"@[1]);
    assert("custom"@[0] != "every_day"@[0]);
    assert("custom"@[0] != "work_days"@[0]);
    assert("custom"@[0] != "weekends"@[0]);
    assert(with_preset(r, 1000).days =~= seq![true, true, true, true, true, true, true]);
    assert(with_preset(r, 1001).days =~= seq![true, true, true, true, true, false, false]);
    assert(with_preset(r, 1002).days =~= seq![false, false, false, false, false, true, true]);
}

} // verus!
