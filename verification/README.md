# seakarr

The verified core of a program that fetches music albums over Soulseek and files
them into a library.

- `src/text`, `words`, `order`: characters, words and the order of texts.
- `src/unicode`, `patterns`: what comes from `unicode-normalization` and `regex`.
- `src/search`: search terms and track titles, the identity of artists and
  albums, which files belong to an artist, the cascade of queries, the search by
  titles, and the grouping of answers into albums.
- `src/scanner`, `scan_laws`, `scan_progress`: the library scan, its laws and its
  indicator.
- `src/runner`: one album from the history check to the library write, the
  albums of an artist, and the automatic, discover and manual runs.
- `src/tracks`, `discs`: track numbers and discs.

A run is a state machine: the library says what is due, the caller does it and
hands the outcome back. `app/` is such a caller.
