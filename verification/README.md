# usfm_onion_wire

A packed binary wire format for USFM token streams and lint findings, with its
reader and writer proved correct in Verus.

A container is a 48-byte header, a table of contents, and 16-byte-aligned
sections; each section is a 64-byte header, a field directory and the field
payloads, guarded by XXH3-64 integrity checksums. Token sections carry fixed
per-token columns, dictionaries (strings, marker descriptors, packed verse
anchors) and sparse records (numbers, book codes, attributes); finding
sections carry common rows, marker references and message parameters checked
against per-rule contracts.

## Layout

- `src/` — the verified library.
  - `primitives` — little-endian encodings, bounded windows, the checksum
    input, a cursor and an append-only writer.
  - `book`, `schema` (with `schema/*`), `error` — book identifiers, the frozen
    discriminant and field tables, parameter contracts, typed refusals.
  - `container` (with `container/read`, `container/write`, `container/laws`,
    `container/interleaving`) —
    the container reader and canonical writer, the round-trip laws that tie
    them together, and the law that the interleaving of token and finding
    sections is invisible.
  - `token_payload` (with `token_payload/laws`) — dictionaries, sparse
    records, their builders and their round-trip laws.
  - `token_section`, `token_codec` — packed anchors, the SID dictionary, the
    checked token columns, the token-section payload, and the binding of a
    token section to its exact source and marker catalog.
  - `finding_section` (with `finding_section/payload`, `finding_section/columns`,
    `finding_section/buffers`, `finding_section/laws`,
    `finding_section/read_back`) — marker references, parameter contracts, the
    finding payload table, the checked finding columns read from a section,
    the buffers a finding section is written from, and the laws that a
    written finding section reads back as the findings that went in.
  - `publication` — per-book reusable sidecars split off a container.
  - `dto`, `outside` — boundary value types, and the two calls into code that
    is not verified here (`xxhash_rust::xxh3::xxh3_64`, `std::str::from_utf8`).
- `tests/` — executable tests against the library.
- `app/` — serde copies of the boundary types and `Display` for the errors.
