# bdo_discord_rpc

Discord Rich Presence for Black Desert, as a verified library and a thin
program around it.

- `src/` is the library, verified with Verus: reading the game's log and
  files, the config and its checks, the presence templates, the adventurer
  profile page, the regions, the watcher's decisions and the settings'
  rules. Each public function states its result in its contract; the laws
  the program relies on are proof functions beside them.
- `tests/` runs the library on concrete values.
- `app/` is the program: the tray, the windows, Discord, files, the
  network and the clock. It calls the library for every decision.
