# lis

`lis` lists directory entries with Git status letters, icons, several sort
keys and several output formats.

The library under `src/` is verified with Verus:

- `entry`: the entry record, its mode string, owner fallback and extension,
  and the stable sort of entries by name, time, size or extension
  (with the laws that the sort is unique, idempotent, and reverses distinct
  keys exactly).
- `display`: icons, the one-column, column and long layouts of the listing.
- `git`: status letters from libgit2 status bits and the lookup of a file's
  letter by its path.
- `args`: the command-line grammar.
- `paths`: the `std::path` operations the listing relies on.
- `time`: the text of a modification time (`%Y-%m-%d %H:%M`) from its
  local date and time, with the law that these texts order as the times do.
- `text`: character-level helpers (decimal numbers, padding, quoting,
  removal of ANSI control sequences).
- `lib.rs`: `LisBuilder` and `Lis`: how the directory is walked and how each
  walked path is named.

`app/` holds the program: reading the command line and the file system,
walking the directory, asking Git, colouring names and printing.
