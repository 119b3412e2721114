# barzel

A testing tool for projects in Rust, TypeScript, Python and Go. It finds out what a
project is, runs the test, mutation, fuzzing, audit and health-check tools that fit it, and
puts what they found into one report, which can be compared with an earlier one.

## Layout

- `src/` is the library, verified with Verus. It decides and computes: which runners a
  project gets and in what order they run, what the output of each tool means, how findings
  add up, when a run fails, and what is better or worse between two reports. It does no
  input or output of its own.
- `app/` is the program around it: the command line, files, processes, HTTP requests and
  what the terminal shows. Percentages are computed there too; the library carries them as
  the bits of a number and compares them.
- `tests/` runs the library.

## How the library sees the outside

- Files are a `Files` value: every path below the project with its text.
- Programs are run through `SubprocessRunner`, URLs are requested through `HttpClient`.
- What a tool printed is turned into a result by a function of its own (`report_...` or
  `parse_...`), whose contract says exactly what the result is.
- JSON and TOML are parsed by `serde_json` and `toml` and read as a `Data` tree.

Public proof functions named `law_...` state what holds of several functions together.
