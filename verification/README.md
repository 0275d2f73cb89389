# hyprlauncher

An application launcher overlay for Hyprland/Wayland. The crate is split in two:

- `src/` is the verified library (Verus): desktop-entry parsing, ranking and
  grouping of results, selection and scrolling, launch counters and their file
  format, the panel layout and hit-testing, the state machine that turns input
  events into commands, key and wheel handling, colors, paths and the pixel
  arithmetic of text drawing. `src/properties.rs` and the proof functions in
  `src/usage.rs` and `src/layout.rs` state what holds across operations.
- `app/` is the program around it: the Wayland client (smithay-client-toolkit,
  calloop), reading files and the environment, icon loading (image, resvg),
  drawing with tiny-skia and fontdue, and starting applications.

Usage:

```bash
hyprlauncher --max-results 9 --width 760 --height 420 --hyprcolor ~/.cache/hyprcolors/colors.json
```

Keys: type to search, `Up`/`Down` to move, `Enter` to launch, `Esc` to close,
`Backspace` to delete.
