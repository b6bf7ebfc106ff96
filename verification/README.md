# hyprresume

Session persistence for the [Hyprland](https://hyprland.org) Wayland compositor.

`hyprresume` tracks open windows and restores them after a logout or reboot: each
application is relaunched and placed back into its workspace, on its monitor, and into
its place in the dwindle or master layout.

## Layout

- `src/` is the library, verified with [Verus](https://github.com/verus-lang/verus):
  each function states what it does, and the `law_*` proof functions state what holds
  across functions. What it takes from other crates and from the standard library is
  believed, not proved; see below.
  - `layout/`: inference of dwindle and master layouts from window geometry
  - `restore/`: restoring a session, as a machine that sends requests and asks questions
  - `resolver/`: finding the command that launches a window's application
  - `ipc/`: requests, responses and events of Hyprland's sockets
  - `state.rs`, `snapshot.rs`, `daemon.rs`: tracked windows, saved sessions, the daemon's decisions
  - `config.rs`, `cli.rs`, `models.rs`: settings, the command line's texts, shared types
  - `text.rs`, `paths.rs`, `collections.rs`, `patterns.rs`: strings, paths, maps, regular expressions
- `tests/` holds the library's tests.
- `app/` is the program around the library: sockets, files, processes and signals.

## What is believed

The contracts of these items are taken as given. Each names the outside function that
it calls, and says what is claimed of it.

| Item | Outside function |
|------|------------------|
| `patterns::escape` | `regex::escape` |
| `patterns::is_valid` | `regex::Regex::new` |
| `patterns::is_match` | `regex::Regex::is_match` |
| `cli::format_time` | `chrono::DateTime::from_timestamp`, `DateTime::format` |
| `resolver::proc::from_utf8_lossy` | `String::from_utf8_lossy` |
| `text::to_lowercase` | `str::to_lowercase` |
| `text::debug_string` | the `{:?}` form of a `str` |
| `String::push`, in `text` | itself, by an assumed specification |
