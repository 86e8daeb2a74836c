# cosmic-applet-window-list

A COSMIC panel applet that shows the open windows with their icons and
titles, with a context menu per window (desktop actions, the other windows
of the same application, pin or unpin, the workspace filter, quit). Pinned
applications stay in the tray as launchers when none of their windows is
shown; the pinned list and the workspace filter are saved in the settings.

The crate is a Verus-verified library with a thin program around it.

- `src/text.rs` — character-level string operations (trimming, line and
  field splitting, prefix and substring tests, field-code removal), each
  proved against a specification of the `str` operation it stands for.
- `src/keyed.rs` — maps kept as vectors of pairs with distinct keys.
- `src/app_map.rs` — reading `.desktop` files into a map from lowercase app
  id / window class, and resolving an app id to its icon and actions.
- `src/styles.rs` — field-code stripping and label truncation.
- `src/config.rs` — the persistent settings and their defaults.
- `src/applet.rs` — the applet's state machine: how compositor updates and
  user actions change the window list and the settings, what requests,
  processes and saves follow, which windows and pinned applications are
  shown and what each menu holds.
- `app/` — the COSMIC application, the Wayland connection thread and the
  button styles; it performs what the library decides.

`tests/` exercises the library on concrete values.
