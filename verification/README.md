# muscli

A terminal music player's core, written in Verus. The functions in `src/`
are verified by Verus, and nearly all carry a contract that states what they
return or change.

- `src/` is the verified library: the library scan's decisions (which files
  are tracks, track ids, tags to tracks, moved files, covers and their
  cache), smart playlists and fuzzy search, M3U and LRC parsing, the interface's views and
  play queue, the session restored at start and the player loop's timing,
  the remote control protocol, translations, the doctor's report, the
  Omarchy integration's file edits, and the audio side's integer
  bookkeeping.
- `tests/` runs the library on concrete values.
- `app/` is the `muscli` command: it reads the command line, the disk, the
  database and the outside programs, and hands plain values to the library.

Calls into outside crates (Unicode normalisation, path handling, TOML,
BLAKE3, image decoding, the shuffle) go through a few trusted wrappers in
`src/`, each with a doc comment saying what is assumed of it.
