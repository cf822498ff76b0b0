# skwd-paper

The verified core of a video and scene wallpaper engine for Wayland, written
in Verus. Every function under `src/` carries a contract that Verus proves,
with one exception: `text::push_char`, a trusted wrapper around std's
`String::push` (vstd gives `push` no specification), whose contract — the
character is appended at the end — is believed, not proved.

- `src/` — the library:
  - `frame` — exact frame rates, drift-free frame pacing, decoded geometry,
    playback counters, monotonic clock readings;
  - `ivf` — validation and packet indexing of AV1 IVF files;
  - `cli`, `args`, `text` — command-line and option parsing;
  - `stream` — composition of raw RGBA stream frames (scale, fit, fill,
    centre, tile);
  - `freeze` — PPM encoding of still frames;
  - `control` — the playback state driven by control commands;
  - `present`, `buffers`, `dmabuf`, `drm`, `extent`, `fill`, `decode` —
    presentation policies, buffer bookkeeping, DMA-BUF format choice, DRM
    frame descriptors, render extents and decoder settings;
  - `scene` — scene composition bookkeeping: scratch target planning,
    quad ordering, texture interning, strict-startup validation;
  - `session` — the decisions of the presentation loops (shared DMA-BUF,
    direct NV12, scene to outputs, scene stream) as step functions from state
    and observed event to next state and action: import fallback, swaps,
    idle and pause parking, transitions, slot acknowledgements, readiness;
  - `multi` — grouping of multi-output wallpapers by source;
  - `outputs` — selection of the requested Wayland outputs;
  - `hash` — FNV-1a content hashes of frame planes.
- `tests/` — tests run against the compiled library.
- `app/` — the `skwd-paper-tinier` program: Wayland presentation, AV1
  decoding, the control channel and file output around the library. The
  Vulkan/FFmpeg engine that would run the `session` step functions needs
  GPU and media crates that are not part of this build.
