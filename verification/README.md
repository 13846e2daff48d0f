# radiome

A keyboard-only terminal player for the Radio Record stations, whose logic is
a library verified with Verus.

## Layout

- `src/` — the verified library:
  - `json.rs`, `number.rs`: a JSON reader whose result is stated against a
    grammar, and the exact integer of a number literal;
  - `api.rs`: the API's request URLs and what its response bodies hold;
  - `app.rs`: categories, selection, favourites, volume and playback requests,
    and what each key does;
  - `view.rs`: what the screen shows;
  - `player.rs`, `engine.rs`: the player's generations, the audio engine's
    events, its command line and IPC requests, and the audio worker;
  - `settings.rs`: the persisted settings and where they live;
  - `console.rs`: a line console over the station list;
  - `text.rs`, `error.rs`: text helpers and error messages;
  - `laws.rs`: properties of the library as a whole.
- `app/` — the program around it: the terminal, drawing with ratatui, the mpv
  process and its socket, curl, the settings file and the level meter.
- `tests/` — tests of the library.
