# anchordb

An append-only memory store. A store file starts with a 64-byte header
(magic `ACDB`, version, counters, CRC32 of the first 40 bytes) and goes on
with records: a 37-byte little-endian record header, the record's tags, then
its payload, the header carrying a CRC32 of tags and payload. Deletion
appends a tombstone. Opening a store scans its records, rebuilds the index
of live records and cuts off a torn tail.

Layout:

- `src/` — the library, verified with Verus: binary layouts, tag encoding,
  the index and its `.idx` file layout, the recovery scan, and the state of
  an open store together with the file image it stands for.
- `tests/` — tests of the library, including an in-memory store driven the
  way the file-backed one is.
- `app/` — the file-backed store (`AnchorDB`): opening and locking the file,
  reading and appending bytes, the `.idx` file, and the thread-safe handle.
