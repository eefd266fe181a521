# ytmdesktop

The core of YTMusic Desktop, a desktop client for YouTube Music, as a library
whose behaviour is stated in contracts and proved with Verus.

## Layout

- `src/` — the verified library.
  - `text.rs`: trimming, ASCII case folding, splitting, joining, sorting and
    number formatting over `Seq<char>`.
  - `settings.rs`: the persisted settings, shortcut validation and the
    duplicate-detection normal form, with the laws that validation accepts
    exactly the valid shortcut sets and that duplicates differ only in case,
    spacing and part order.
  - `settings_store.rs`: the in-memory settings, which always pass validation.
  - `shortcuts.rs`: hotkey parsing (through `global-hotkey`) and the
    registration manager. The manager keeps a ghost record of every call it
    makes to the registration backend and the settings persistence, with
    what each returned; its contracts state the exact sequence of calls for
    each outcome, and its laws state that settings are written only after
    registration succeeded and that a failed change is rolled back.
  - `player.rs`, `player_log.rs`, `player_command.rs`: the player snapshot, its
    validation and store, log lines, and the command script for the page.
  - `media.rs`, `mini_player.rs`: what the operating system's media controls
    and the Mini Player show (artwork URLs are parsed with `url`).
  - `discord.rs`, `discord_session.rs`: Rich Presence planning, the write rate
    limit, and the connection state machine.
  - `tray.rs`, `window.rs`, `localization.rs`, `settings_commands.rs`,
    `runtime_settings.rs`: tray menu, window behaviour, interface text and the
    guards and plans of the settings commands.
- `tests/` — tests of the library.
- `app/` — the Tauri application around the library: windows, commands, file
  I/O, the Discord IPC client, the media controls and the floating-point
  timing of the player.
