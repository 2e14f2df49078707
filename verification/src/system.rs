//! Decisions read from what the operating system reports as text, and the
//! text written to it.
use vstd::prelude::*;
use crate::text::{chars_equal_str, chars_of, contains_str, has_substring, push_str, string_of, trim, trim_chars};

verus! {

/// The power-management report shows an audio stream keeping the system
/// awake: it names both `PreventUserIdleSystemSleep` and `coreaudiod`.
pub fn audio_busy_in(report: &str) -> (res: bool)
    ensures
        res == (has_substring(report@, "PreventUserIdleSystemSleep"@) && has_substring(
            report@,
            "coreaudiod"@,
        )),
{
    contains_str(report, "PreventUserIdleSystemSleep") && contains_str(report, "coreaudiod")
}

/// The hardware registry report shows the lid closed.
pub fn lid_closed_in(report: &str) -> (res: bool)
    ensures
        res == has_substring(report@, "\"AppleClamshellState\" = Yes"@),
{
    contains_str(report, "\"AppleClamshellState\" = Yes")
}

/// The interface style setting, trimmed, is `Dark`.
pub fn dark_style_in(output: &str) -> (res: bool)
    ensures
        res == (trim(output@) == "Dark"@),
{
    let cs = chars_of(output);
    let t = trim_chars(&cs);
    chars_equal_str(&t, "Dark")
}

/// The program runs from inside an application bundle.
pub fn in_app_bundle(exe_dir: &str) -> (res: bool)
    ensures
        res == has_substring(exe_dir@, ".app/Contents/MacOS"@),
{
    contains_str(exe_dir, ".app/Contents/MacOS")
}

pub open spec fn plist_head() -> Seq<char> {
    "<?xml version=\"1.0\" encoding=\"UTF-8\"?>\n<!DOCTYPE plist PUBLIC \"-//Apple//DTD PLIST 1.0//EN\" \"http://www.apple.com/DTDs/PropertyList-1.0.dtd\">\n<plist version=\"1.0\">\n<dict>\n\t<key>Label</key>\n\t<string>com.meadows19.autozikr</string>\n\t<key>ProgramArguments</key>\n\t<array>\n\t\t<string>"@
}

pub open spec fn plist_tail() -> Seq<char> {
    "</string>\n\t</array>\n\t<key>RunAtLoad</key>\n\t<true/>\n</dict>\n</plist>"@
}

/// The launch agent that starts the program at login.
pub fn launch_agent_plist(exe_path: &str) -> (res: String)
    ensures
        res@ == plist_head() + exe_path@ + plist_tail(),
{
    let mut out: Vec<char> = Vec::new();
    push_str(
        &mut out,
        "<?xml version=\"1.0\" encoding=\"UTF-8\"?>\n<!DOCTYPE plist PUBLIC \"-//Apple//DTD PLIST 1.0//EN\" \"http://www.apple.com/DTDs/PropertyList-1.0.dtd\">\n<plist version=\"1.0\">\n<dict>\n\t<key>Label</key>\n\t<string>com.meadows19.autozikr</string>\n\t<key>ProgramArguments</key>\n\t<array>\n\t\t<string>",
    );
    push_str(&mut out, exe_path);
    push_str(&mut out, "</string>\n\t</array>\n\t<key>RunAtLoad</key>\n\t<true/>\n</dict>\n</plist>");
    string_of(&out)
}

/// The lock file that keeps a second instance from starting: in the home
/// directory when there is one, else in `/tmp`.
pub fn lock_file_path(home: Option<&str>) -> (res: String)
    ensures
        res@ == match home {
            Some(h) => h@ + "/.autozikr.lock"@,
            None => "/tmp/autozikr.lock"@,
        },
{
    match home {
        Some(h) => {
            let mut out: Vec<char> = Vec::new();
            push_str(&mut out, h);
            push_str(&mut out, "/.autozikr.lock");
            string_of(&out)
        },
        None => String::from_str("/tmp/autozikr.lock"),
    }
}

} // verus!
