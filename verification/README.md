# ferrite_carver

A signature-based file carving engine, verified with Verus.

The library reads a device in overlapping chunks, finds file signatures
(headers with wildcard bytes, checked by per-format header validators),
and extracts the file behind each hit: sized by a field embedded in the
file when the signature names one, otherwise up to the signature's footer
or its maximum size.  Extracted files can then be checked for structural
integrity.

## Layout

- `src/` — the verified library.
  - `bytes.rs`, `text.rs`: byte and character helpers with their specifications.
  - `device.rs`: the block-device trait, an in-memory image, clamped reads.
  - `signature.rs`: signatures, size hints, hex parsing, building a
    configuration from its records.
  - `pre_validate/`: header validators, one per format family.
  - `scan_search.rs`: finding one signature's hits in one chunk.
  - `scanner.rs`: scan plans, the gap filter, whole scans, step-by-step
    scans and extraction.
  - `carver_io.rs`: reading extraction windows, cut at a footer.
  - `size_hint/`: readers of embedded file sizes.
  - `post_validate/`: quality of extracted files from their head and tail,
    and whole-file structural checks.
- `tests/` — tests of the library.
- `app/` — the parts that talk to the outside world: TOML signature files,
  serialisable copies of the data types, image files, checks of files on
  disk, and scans with progress reports, pausing and cancellation.

Every function in `src/` carries a contract that Verus proves; calls into
`crc32fast`, `memchr`, `rayon` and the standard library go through small
trusted wrappers whose contracts state what those functions document.
