# Luma Swarm Studio

A drone-show simulator and choreography editor. The choreography core is a
Verus-verified library; the desktop editor around it is ordinary Rust.

## Layout

- `src/` — the verified library (crate `luma_swarm_studio`):
  - `model`, `camera`: formation, execution-mode, preset and camera vocabulary.
  - `timeline`: the show timeline in whole microseconds — showcase and
    imported-image shows, cue sampling, the looping show clock, reordering
    and duplicating cues, formation selection.
  - `animation`: GIF frame timing, frame lookup during playback, pairwise
    frame compaction, colour spreading over a formation.
  - `image_formation`: the hole-free display lattice of an imported image,
    candidate raster shapes, and resampling through the `image` crate.
  - `image_decoding`: decoding still images (kept in their stored colour
    type until resampled) and GIF frames with their display lengths.
  - `formation_import`: OBJ structure parsing with line-accurate errors.
  - `assignment`: Morton keys and the order-preserving slot assignment with
    caller-approved local swaps.
  - `safety_log`, `incidents`: the cumulative run collision log, the
    per-step incident history and the safety panel status.
  - `fleet`, `renderer`: fleet sizing per execution mode, launch pad grid,
    GPU capacity and pass-count decisions.
- `tests/` — tests of the library.
- `app/` — the egui editor: file reading, floating-point flight dynamics,
  formation generators, camera rig, raster shape scoring and colour
  conversion, OBJ sampling and a painter-based viewport.

Times and durations inside the library are whole microseconds; the editor
converts them from and to seconds.
