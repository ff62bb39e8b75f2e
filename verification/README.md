# Audira

A minimal desktop music player. The player's logic is a Verus library whose
behaviour is stated in `requires` / `ensures` contracts and proved; the window,
the audio output, the file dialogs and the disk stay in ordinary Rust in `app/`.

## Layout

- `src/player.rs` — the player's state and its answer to each message
  (`Audira::update`): which track plays next under the repeat and shuffle
  modes, going back, seeking, playlist management and the name dialog. The
  answer is the next state plus a list of effects for the outside world.
  Laws: the state keeps an existing active playlist, every change to the
  playlists asks for a save, the repeat button cycles through three modes,
  shuffle toggles back, repeat-one replays, repeat-all wraps, no repeat stops,
  colour changes follow the cover-art setting.
- `src/clock.rs` — the playback clock of the audio engine (position across
  pauses, resumes and seeks, end-of-track detection), in nanoseconds.
- `src/playlist.rs` — playlists, their saved form and loading them back,
  durations, and which file extensions count as audio.
- `src/folder.rs` — choosing the audio files found below a folder and
  putting them in path order.
- `src/metadata.rs` — track metadata read from a file's content (through the
  `lofty` crate), time formatting, and removal of LRC timestamps from lyrics
  (proved idempotent).
- `src/waveform.rs` — where the waveform samples are read, PCM energy, and the
  pseudo-random stand-in waveform.
- `src/theme.rs` — decoding cover art (through the `image` crate) and sampling
  it on a grid.
- `src/icons.rs` — the SVG icons and their lookup by name.
- `src/text.rs` — character-level helpers (whitespace, trimming).
- `app/` — the iced interface, rodio playback, reading files and walking
  folders, file dialogs, saving to disk, and the floating-point colour and waveform shaping.
- `tests/` — tests of the library on concrete values.
