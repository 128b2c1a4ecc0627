# tokei

Finds the source files under some directories and gathers what is counted in them,
language by language.

- `src/` is the library, verified with Verus:
  - `glob`: wildcard patterns, and what they match
  - `path`: the components, the text, the file name and the extension of a path
  - `exclude`: which paths a list of patterns leaves out
  - `config`: the settings of a run and the ignore rules that follow from them
  - `walk`: the directory walker of the `ignore` crate, set up for a run
  - `tally`: the reports of each language, whatever order the files come in
  - `run`: what a whole run comes to, and what exclusions take out of it
- `app/` walks the file system on several threads and enters what it finds.
- `tests/` runs the library on given values and on directories of its own.

What the library believes of the standard library and of `ignore` without proof stands
in the contracts of the functions marked `external_body` in `path` and `walk`, and in
the specification of `str::to_lowercase` in `path`.
