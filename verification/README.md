# ferris_pad

The logic of the FerrisPad text editor as a library verified with Verus: what
the editor computes and decides, stated in `requires` / `ensures` contracts and
proved, apart from the widgets that display it.

## Layout

- `src/text.rs`: character-level helpers (trimming, splitting, decimal
  numbers) shared by the rest, with their specifications.
- `src/updater.rs`: release versions, when to check for updates and what a
  check concludes.
- `src/ui/`: the interface logic.
  - `menu.rs`, `keys.rs`: parsing shortcut strings, the built-in and
    reserved shortcut tables, the shortcuts plugin menu items receive.
  - `tab_bar.rs`: scrollable items, the layout of the bar, hit-testing, drag
    and drop, scrolling, label fitting.
  - `split_panel.rs`, `terminal_panel.rs`, `tree_panel.rs`,
    `diagnostic_panel.rs`, `status_bar.rs`, `toast.rs`, `theme.rs`: what the
    panels show.
  - `dialogs/`: the decisions of the find, go-to-line, font, shortcut,
    settings, plugin, session, large-file and read-only viewer dialogs.
- `tests/`: tests of the library on concrete values.
- `app/`: what stays outside the verified library: fetching the release feed
  over HTTP, mapping files into memory, and the color arithmetic done in
  floating point.
