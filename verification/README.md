# shrinkpub-core

Shrinks EPUB files by recompressing the images inside them, with the
decisions proved correct by Verus.

Layout:

- `src/` — the verified library: quality tiers, output naming, EPUB
  validation, the shrink pipeline over ZIP entries, image recompression
  decisions, release-version comparison and the desktop/CLI data models.
  Calls into `zip`, `image`, `imagequant` and `lodepng` stand behind small
  trusted wrappers whose contracts are documented next to them.
- `tests/` — ordinary Rust tests run against the compiled library.
- `app/` — the command-line program and desktop command handlers: file
  I/O, argument parsing, HTTP, report formatting with floats.
