# wezterm_git_status_bridge

Git repository status for the right edge of WezTerm or Kitty, without running
`git` from a terminal render path. The bridge writes one-line status payloads
to cache files; thin terminal adapters read them.

Layout:

- `src/` is the verified library: the payload and its flags (`payload`), the
  cache file names and the focused-pane read-back (`cache`), Herdr events and
  pane lists (`event`, `herdr`), which pane an update is for (`cli`), the
  step-by-step status collector (`git_status`), the Lua nesting scanner and the
  kept setup options (`lua`, `options`), the configuration text that setup
  writes (`setup`) with the laws of taking it in again (`rerun`), and text
  and path helpers (`text`, `path`, `occurrences`).
- `app/` is the command: argument parsing, running `git` and `herdr`, the
  clock, and reading and writing files. The adapter files that setup
  installs (`right-status.lua` for WezTerm, `tab_bar.py` for Kitty, the Herdr
  plugin) are compiled in from `extras/contrib/`.

`setup` sets up WezTerm by default or with `--wezterm`, and Kitty with
`--kitty`: for Kitty it writes `tab_bar.py`, adds a marked block to
`kitty.conf` that turns on the custom tab bar and shows it for one tab, and
installs the zsh hook, which keys its writes by `KITTY_WINDOW_ID`.
- `tests/` exercises the library on concrete values.
