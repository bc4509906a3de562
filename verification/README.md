# gpui_zgui

A gpui backend that draws through zgui and redraws only what changed.

gpui rebuilds its scene every frame. zgui keeps what it drew and redraws the rectangles it is told
are damaged. This crate works out those rectangles, rewrites the scene for zgui, keeps the sprite
atlas, and routes events and tasks. Its logic is written in Verus and proved against the contracts
that stand beside it.

## Layout

- `src/` is the library. Fractional numbers are carried as their bits, and nothing here computes
  with them.
  - `snapshot`, `damage`, `damage_laws`, `region`, `geom`: what a frame paints, how it differs from
    the one before, and why no pixel goes stale.
  - `scene`, `translate`, `filters`, `spatial`, `convert`: the scene and the display list it becomes.
  - `path`, `raster`: paths as cached coverage masks.
  - `atlas`, `pool`: the sprite atlas and the pools under it.
  - `renderer`, `outcome`, `stats`: one frame from its damage to its totals.
  - `events`, `input`, `window`, `platform`, `dispatcher`, `display`, `keyboard`: windows, input,
    tasks and monitors.
  - `collections`, `bits`, `fraction`, `fx`, `text`: hashing, number formats and text.
- `app/` is the platform itself: windows, the device, threads, the clock, and the arithmetic on
  fractional numbers.
- `tests/` runs the library on concrete values.

## What is trusted

Calls into other crates stand behind small functions marked `external_body`, each of which names the
function it calls and says what is claimed of it. Everything else in `src/` is proved.
