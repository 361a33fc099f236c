# archive_extractor

An archive extractor (ZIP, TAR, GZIP, BZIP2, XZ, RAR, 7z, Zstandard, Brotli,
LZ4) with a window and a command line, whose decisions are specified and
proved with Verus.

- `src/` is the verified library: format detection by signature and
  extension, a model of '/'-separated paths and the sanitising of entry paths
  (no extracted file lands outside the destination; a `..` that only '\'
  separates, which would climb out on Windows, is refused too), the per-entry plan of an
  extraction for each format, the names of decompressed single files, byte
  counts for display, sorting and searching of the entry list, the window's
  states and texts, and the command line's destinations and reports.
- `app/` is the program around it: reading archives with the decoder crates,
  writing files, threads, the egui window and the clap command line. The
  window is compiled only with a `gui` feature that brings in eframe, rfd and
  open; the manifest here declares neither, so this build is the command line.
- `tests/` runs the library on concrete values, including comparisons with
  std's path handling and float formatting.
