# native_audio

The playback engine of a desktop audio player, written and proved in Verus.

The engine holds the state of the player and decides; the host in `app/` opens
the sound device, reads and downloads files, writes checkpoints and talks to
listeners. Each function of the engine takes what the host has observed, moves
the state, and says what to do next.

- `src/double.rs`, `src/rounding.rs`, `src/single.rs`: binary64 and binary32
  numbers as bit patterns, with exact comparison, addition and rounding.
- `src/timing.rs`: positions and lengths in seconds, clamped to seven days.
- `src/text.rs`: trimming, searching and numbers in text.
- `src/source.rs`: how a source is reached: file, resource or download.
- `src/cache.rs`: names and freshness of cached files, the steps of a download.
- `src/clock.rs`: the wall clock.
- `src/models.rs`, `src/player.rs`: the state, its invariant, snapshots and
  checkpoints.
- `src/commands.rs`: the commands.
- `src/laws.rs`: what holds of the player as a whole.
