# purepic

PurePic is an image viewer for Windows with a custom-drawn title bar and a strip of
thumbnails of the images next to the one that is open. This crate holds its logic as a
library verified with Verus, and the Windows application around it.

## Layout

- `src/` — the verified library:
  - `natural` — natural, case-insensitive ordering of file names, with its laws
    (antisymmetry, ties only between equal names, transitivity);
  - `sorting` — the stable sort of a directory listing into strip order;
  - `thumbnail` — supported extensions, the prefetch window and the load order of
    previews;
  - `catalog` — the strip's files, selection, preview states and the budgeted preview
    cache with least-recently-used eviction;
  - `queue` — the work queue shared with the decoding thread;
  - `session` — which background results are still wanted;
  - `image` — decoded images, preview sizes and the demo picture's pixel storage;
  - `chrome`, `window` — DPI scaling, packed coordinates, the frame hit test, window
    bounds, saved window state, caption and keyboard commands;
  - `wheel` — turning wheel rotation into whole zoom steps;
  - `controls` — the status-bar controls;
  - `pointer` — what a press of the pointer does to the menus and the strip, given what
    lies under it;
  - `registry` — the values written to and read from the registry;
  - `svg` — the `viewBox`, path data and path tokens of the icons;
  - `svg_path` — the grammar of path data: which command each group of numbers belongs
    to;
  - `text` — the standard-library text and path calls the library relies on.
- `app/` — the Windows program: Win32 windowing, Direct2D rendering, WIC decoding,
  registry and recycle-bin calls, threads, and the floating-point layout, zoom and icon
  geometry. It calls the library for every decision the library makes.
- `tests/` — tests of the library.

The application loads its icons at run time from `Assets/icons` next to the executable.
