# llama.cpp Launcher

A desktop launcher for `llama-server`: it keeps named profiles of server settings, shows and
reads back the server's command line, keeps `config.ini` model presets in step with the
profiles, and starts and stops the server with a health check.

## Layout

- `src/` — the verified library (Verus):
  - `text.rs` — character-level text operations (trimming, lines, words, decimal numbers).
  - `ini.rs` — `config.ini` sections: reading, writing, parameters kept sorted by key.
  - `ini_laws.rs` — what written text reads back as, and that read sections can be written back.
  - `config.rs` — profile settings, extra arguments of a command line, the `config.ini`
    operations as decisions on the file's text, and the files' paths.
  - `config_laws.rs` — each `config.ini` operation settles the file.
  - `models.rs`, `basic_config.rs` — model lists of a directory, the single-profile settings.
  - `profiles.rs`, `profile_laws.rs` — profiles and the settings file's document.
  - `launcher.rs`, `launcher_laws.rs` — the window's state: command line, numeric fields, log,
    server events.
  - `server.rs` — the server's arguments, start-up watch, stop messages, port clean-up.
  - `i18n.rs` — texts in Chinese and English.
- `app/` — the program around the library: the egui window, file and process I/O, JSON.
- `tests/` — tests of the library.
