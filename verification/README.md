# zejtron

A Linux introspection library with machine-checked contracts: who holds a port or a file,
why it is in use, how the network is set up, where a command comes from, and what a process
and its parents are.

- `src/` is the library, verified with Verus. Its functions take what was read from the
  system as plain values (the text of a `/proc` file, the outcome of a directory listing,
  the bytes of a path) and return values and report texts. Each contract says exactly which.
- `app/` is the command line: it reads the files, asks the package managers, finds out the
  local time zone, and prints.
- `tests/` runs the library on concrete inputs.

Four things are trusted rather than proved: that `String::push` appends a character, what
`String::from_utf8_lossy` and `std::str::from_utf8` make of bytes, and how
`chrono::DateTime::format` writes a moment.
