# victuner

Keyboard RGB control for HP Victus laptops, with its logic verified by Verus.

- `src/` is the verified library:
  - `text.rs`: text as `Seq<char>`; trimming, searching, splitting, lines,
    unsigned parsing and decimal formatting, stated over specifications of
    the corresponding `str` operations.
  - `cli.rs`: which command the program's arguments ask for, and the words a
    background worker is started with.
  - `color.rs`: preset colour names and command-line colours.
  - `ec.rs`, `process.rs`: the current-colour report and the worker's pid file.
  - `kb_rgb_effects/ambient.rs`: palette entries, the palette file format
    (with the proof that reading back a written palette gives it back), and
    snapping a colour to its nearest palette entry.
  - `kb_rgb_effects/palette_cli.rs`: the `ambient-palette` subcommands, and
    the proof that adding an entry and removing the last one restores the file.
  - `kb_rgb_effects/palette_messages.rs`: the texts those subcommands show.
  - `kb_rgb_effects/screen_color.rs`: the colour in ImageMagick's output.
  - `kb_rgb_effects/ambient_env.rs`: home, runtime directory and socket names.
- `app/` is the program: embedded-controller and file I/O, processes, timing,
  and the floating-point colour arithmetic of the effects.
- `tests/` runs the library on concrete values.
