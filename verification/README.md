# Photo Editor

A light, non-destructive photo editor. The editor's rules live in a library
whose behaviour is stated in `requires` / `ensures` contracts and proved with
Verus; the window, the floating-point render pipeline and the file I/O wrap
around it.

## Layout

- `src/` — the verified library (`photo_editor`):
  - `cull` — star ratings, pick/reject flags, the culling keyboard, stepping
    through a folder;
  - `history` — per-photo undo / redo;
  - `histogram` — channel histograms (counted in parallel with rayon), the
    clipping overlay and the mask-coverage wash;
  - `geometry` — quarter-turn orientation with flips, pixel crops, transposes;
  - `paths`, `presets`, `recent`, `listing` — sidecar and export file names,
    supported extensions, preset names, recent folders, sorting by name;
  - `metadata` — the EXIF info panel (tags read with kamadak-exif);
  - `thumbs` — filmstrip thumbnails (standard files decoded with `image`);
  - `export` — export formats, encoding (with `image`) and batch messages;
  - `worker` — which queued render requests are stale;
  - `crop`, `masks`, `ui` — what the panels report back.
- `tests/` — tests of the library.
- `app/` — the program: egui/eframe interface, the f32 render engine, the
  worker threads, and reading and writing files.

Verify with `verus` on `src/lib.rs`; the tests run with `cargo test`.
