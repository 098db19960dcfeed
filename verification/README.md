# elvanto_cli

A command-line client for the [Elvanto](https://elvanto.com) church-management
API: songs, services and people, as text or JSON.

The crate is written in Verus. `src/` is the library, each function with a
contract that Verus proves:

- `textops` — character-level string operations with exact specifications.
- `api` — client settings, the answer envelope, paging, the records Elvanto
  returns, and the songs a service uses.
- `domain` — the normalised records that commands print.
- `resolve` — looking nodes of the org tree or the category list up by id,
  name or path, with suggestions for near misses.
- `transpose`, `arrangement_select`, `song_sheets` — chord charts and lyrics.
- `date_window`, `song_filters` — dates, look-backs and the song-list filters.
- `song_usage`, `usage_report` — the song-usage tally and its report.
- `song_export` — one key-data row per arrangement of a song.
- `roster`, `credentials`, `auto_flags` — rosters, people, API keys and
  default flags from the environment.
- `output` — the text output of every listing.
- `laws` — properties of the library as a whole.

`app/` is the program around it: argument parsing, HTTP, the keyring, JSON
decoding and encoding, printing. `tests/` exercises the library.
