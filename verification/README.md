# DWMend

A tiling window manager for Windows 11, with its logic verified by
[Verus](https://github.com/verus-lang/verus).

## Layout

- `src/` is the library. Every function in it has a contract that Verus proves:
  the binary space partition and its tiles, workspaces and monitors, window
  rules, hotkeys, configuration, notifications, the status bar, the picker, the
  focus frame, the list of windows that outlives a crash, and the protocol of the
  named pipe. It makes no system call.
- `app/` is the program around the library. It reads the configuration file,
  listens to the system, and draws. What happens on the desktop is decided in
  `src/`.
- `tests/` runs the library on examples.

## How the library meets the desktop

`state::WindowManager` never touches a window. A command runs on the state and
leaves a list of requests in its `desk`: show this window, move those, put the
focus frame here. Two kinds of request have an answer that the rest of a command
depends on, namely whether a batch of moves was accepted and where a window is.
The answers are given to the desk before the command runs; see `src/desk.rs`.

`model::World` is the mathematical side of the same state. Each command is a
function from one world to the next, and each executable method states that it
computes that function.

## What is stated beyond the single functions

Proof functions whose names begin with `law_` say what holds across functions.
Some of them:

- the visible tiles of a tree fill the work area without overlap
  (`tree::law_tiles_fill_the_area`);
- removing a window that was just inserted gives the tree back
  (`tree::law_remove_undoes_insert`);
- every command, event and change of the monitors keeps the state in order
  (`model::keeping`, `model::topology`);
- the windows of a workspace in the pool stay hidden, and those in view on a
  monitor stay shown, whatever command, event, reload or change of the monitors
  comes; each law says where it has an exception (`model::veil`,
  `model::veiling`, `model::sheltering`);
- switching to a workspace swaps it with the one on the focused monitor, and
  switching back restores what every monitor showed (`model::switching`);
- a workspace returns to the monitor that it was shown on when that monitor
  returns (`model::topology::law_replug_snaps_all_back`);
- a command makes the same requests whatever the desktop answers, up to the first
  request that is answered otherwise (`model::replay`);
- a request that is sent through the pipe is read as it was written
  (`wire::law_request_arrives`).

## What is trusted

Verus takes the contracts of a few functions of `std` and of the `regex` and
`serde_json` crates on trust: `text::push_char`, `wire::from_utf8`,
`wide::char_with`, `rules::build_regex`, `regex::Regex::is_match`,
`recovery::read_ids`, `recovery::write_ids`, `reply::read_value`,
`reply::text_value`, `reply::print_value`, `reply::member_of`, and
`serde_json::Value::as_bool`. Their doc comments say what is taken on trust.
