//! What the panel shows as text, and where it opens.
use vstd::prelude::*;
use crate::config::{QuietHoursRule, RuleView};
use crate::text::{chars_equal_str, chars_of, pad2, push_pad2, push_str, string_of};

verus! {

/// `mm:ss` of a countdown (the minutes may run past two digits).
pub open spec fn countdown_text_spec(remaining: nat) -> Seq<char> {
    pad2(remaining / 60) + seq![':'] + pad2(remaining % 60)
}

/// The countdown shown in the progress ring, `mm:ss`.
pub fn countdown_text(remaining: u32) -> (res: String)
    ensures
        res@ == countdown_text_spec(remaining as nat),
{
    let mut out: Vec<char> = Vec::new();
    push_pad2(&mut out, (remaining / 60) as u64);
    out.push(':');
    push_pad2(&mut out, (remaining % 60) as u64);
    assert(out@ =~= countdown_text_spec(remaining as nat));
    string_of(&out)
}

/// The label of a preset's menu button.
pub open spec fn preset_label_spec(preset: Seq<char>) -> Seq<char> {
    if preset == "every_day"@ {
        "Every Day ▼"@
    } else if preset == "work_days"@ {
        "Work Days ▼"@
    } else if preset == "weekends"@ {
        "Weekends ▼"@
    } else {
        "Custom ▼"@
    }
}

/// The label of a rule's preset menu button.
pub fn preset_label(preset: &str) -> (res: &'static str)
    ensures
        res@ == preset_label_spec(preset@),
{
    let p = chars_of(preset);
    if chars_equal_str(&p, "every_day") {
        "Every Day ▼"
    } else if chars_equal_str(&p, "work_days") {
        "Work Days ▼"
    } else if chars_equal_str(&p, "weekends") {
        "Weekends ▼"
    } else {
        "Custom ▼"
    }
}

/// `hh:00 - hh:00`, with ` (Overnight)` for a range across midnight.
pub open spec fn mute_range_spec(r: RuleView) -> Seq<char> {
    pad2(r.start_hour as nat) + ":00 - "@ + pad2(r.end_hour as nat) + ":00"@ + (if r.overnight {
        " (Overnight)"@
    } else {
        Seq::<char>::empty()
    })
}

/// The muted hours of a rule, for its summary line.
pub fn mute_range_text(rule: &QuietHoursRule) -> (res: String)
    ensures
        res@ == mute_range_spec(rule@),
{
    let mut out: Vec<char> = Vec::new();
    push_pad2(&mut out, rule.start_hour as u64);
    push_str(&mut out, ":00 - ");
    push_pad2(&mut out, rule.end_hour as u64);
    push_str(&mut out, ":00");
    if rule.overnight {
        push_str(&mut out, " (Overnight)");
    }
    assert(out@ =~= mute_range_spec(rule@));
    string_of(&out)
}

/// Half of `s`, rounded toward zero.
pub open spec fn half_toward_zero(s: int) -> int {
    if s >= 0 {
        s / 2
    } else {
        -((-s) / 2)
    }
}

/// Where the 420 by 620 panel opens: centred on the pointer and kept
/// within the work area's sides, at the bottom of the work area, or at its
/// top when the pointer is in the upper half.
pub open spec fn panel_position(cx: int, cy: int, left: int, top: int, right: int, bottom: int) -> (
    int,
    int,
) {
    let x0 = cx - 210;
    let x = if x0 < left {
        left
    } else if x0 + 420 > right {
        right - 420
    } else {
        x0
    };
    let y = if cy < half_toward_zero(top + bottom) {
        top
    } else {
        bottom - 620
    };
    (x, y)
}

/// Where the panel opens for a pointer at (`cursor_x`, `cursor_y`) and the
/// given work area.
pub fn window_position(cursor_x: i32, cursor_y: i32, left: i32, top: i32, right: i32, bottom: i32) -> (res: (
    i32,
    i32,
))
    requires
        i32::MIN + 210 <= cursor_x <= i32::MAX - 210,
        right >= i32::MIN + 420,
        bottom >= i32::MIN + 620,
        i32::MIN <= top + bottom <= i32::MAX,
    ensures
        (res.0 as int, res.1 as int) == panel_position(
            cursor_x as int,
            cursor_y as int,
            left as int,
            top as int,
            right as int,
            bottom as int,
        ),
{
    let mut x: i32 = cursor_x - 210;
    if x < left {
        x = left;
    } else if x + 420 > right {
        x = right - 420;
    }
    let sum: i64 = (top as i64) + (bottom as i64);
    let half: i64 = if sum >= 0 {
        sum / 2
    } else {
        -((-sum) / 2)
    };
    let mut y: i32 = bottom - 620;
    if (cursor_y as i64) < half {
        y = top;
    }
    (x, y)
}

/// What a left click on the tray icon does to the panel.
#[derive(Debug, Clone, Copy, PartialEq, Eq)]
pub enum TrayClick {
    /// Hide the shown panel.
    Hide,
    /// The panel was hidden by this very click: leave it hidden.
    Keep,
    /// Show the panel at the tray.
    Show,
}

/// A left click on the tray icon: a shown panel hides; a panel hidden less
/// than 250 ms ago stays hidden; otherwise the panel shows.
pub fn tray_left_click(visible: bool, millis_since_hide: u128) -> (res: TrayClick)
    ensures
        res == if visible {
            TrayClick::Hide
        } else if millis_since_hide < 250 {
            TrayClick::Keep
        } else {
            TrayClick::Show
        },
{
    if visible {
        TrayClick::Hide
    } else if millis_since_hide < 250 {
        TrayClick::Keep
    } else {
        TrayClick::Show
    }
}

} // verus!
