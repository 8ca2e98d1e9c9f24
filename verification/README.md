# Continuum

A reader for manhwa and manga stored as `.cbz` archives, which reads a whole
series as one continuous stream: the sibling archives of the opened chapter
load as the reader scrolls on.

The decisions of the reader are a Verus-verified library (`src/`):

- `cache` — the texture cache: its budget from the free RAM, and eviction of
  the pages farthest from the page on screen while the cache is over budget.
- `ranking` — stable orderings by an integer key, used for eviction and for
  decoding the pages nearest the screen first.
- `stream` — the loaded chapters in reading order and the global page order
  across them.
- `requests` — which pages to decode around the page on screen.
- `reading` — the reader view's state: layout, chapters with their page
  images, decodes under way and their generation.
- `engine` — the reading engine's state for a model-based front end:
  properties, page queries, chapter completion and the progress report given
  on exit. `app/engine_io.rs` holds its file and thread edges; no front end
  is bound to it in `app/`.
- `archive` — opening an archive from its bytes (zip listing, page images in
  natural order, limits), bounded extraction and decoding of a page.
- `names` — file names and stems, chapter numbers written in file names,
  comic extensions and removable-storage paths.
- `keys` — what each key press does, held scrolling and the double `g`.
- `cli`, `url`, `text` — command lines, file URLs and text helpers.

The calls into `zip`, `natord` and `image` stand behind small trusted
wrappers in `archive.rs`, each with a contract stated over named results.

`app/` is the GTK4/Libadwaita program around the library: widgets, file and
thread plumbing, and the floating-point layout of pages.

`tests/` runs the library on concrete values.
