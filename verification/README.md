# buschain

Verified control-plane logic of the BusChain PipeWire mixer, written in Verus.
The library decides; the caller runs `pactl`, `pw-link`, `pw-dump` and the
PipeWire control thread and hands back what they printed or reported.

## Layout

- `src/` — the verified library, proved by Verus; its only trusted items are the
  wrappers of `String::push`, `str::to_lowercase` and the `serde_json` parse
  (`json`), whose contracts are taken on trust:
  - registry snapshot and what globals add to it: `table`, `graph`, `globals`, `ports`, `session`
  - control-plane requests (destroy, default sink, retarget, native links and null-sinks): `rpc`
  - links and their teardown from CLI listings: `link`, `linker`, `unlink`, `modules`, `route`
  - clocks, rates and the clock-master rule: `clock`, `probe`, `master`
  - buses, FX helpers, virtual inputs and null-sinks: `domain`, `fx`, `vinput`, `null_sink`
  - playback placement, CLI caches, backend choices, UI decisions, recovery:
    `playback`, `cli`, `backend`, `ui`, `recovery`, `contract`
  - app icon lookup order and Hyprland window addresses: `icons`, `windows`
  - JSON values and what a `pw-dump` object tells (properties, card, advertised rates): `json`
  - helpers: `text`, `ordset`
- `tests/` — tests run against the compiled library.
- `app/` — the `buschain` command line: runs the tools, feeds the library, performs its plans.
