# autozikr

The logic of AutoZikr, a tray / menu-bar program that plays a short
remembrance recording at fixed times of the clock, written in Verus with
its behaviour stated in contracts and proved.

* `src/calendar.rs` — the Gregorian calendar: the date and weekday of a
  day number.
* `src/text.rs` — splitting, trimming, decimal numbers and `true`/`false`,
  each with its mathematical meaning.
* `src/config.rs` — quiet-hours rules and the settings, their text formats,
  and the proofs that each format reads back what was written.
* `src/schedule.rs` — the local date and time of a clock reading, the `hh:mm:ss am` display, quiet hours,
  the next reminder boundary and the pick of a recording.
* `src/audio.rs` — the offered recording list (sorted, without repeats of
  found files), the built-in lookup and the RIFF chunk walk.
* `src/panel.rs` — the panel's state and what each control changes; the
  once-a-second countdown.
* `src/display.rs`, `src/system.rs` — text shown on the panel and text
  read from or written to the operating system.
* `app/` — the Windows and macOS programs: windows, drawing, tray and
  menu-bar icons, audio output, files, the clock.

`app/sounds.rs` builds the twelve recordings into the program from an
`audio/` folder beside `app/`.
