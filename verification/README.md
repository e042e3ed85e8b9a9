# ccline

A statusline renderer for coding-assistant sessions: it reads the session
JSON from stdin, formats it with a Starship-style `format` string
(`$module` references, literal text, conditional `(...)` groups) and prints
the line.

- `src/` is the verified library: the format parser and renderer
  (`render.rs`), the module renderers (`modules/`), the payload types
  (`input.rs`), the configuration file's location and default
  (`config.rs`), the snapshot paths (`dump.rs`), path joining
  (`paths.rs`), ANSI styling (`style.rs`) and character helpers
  (`text.rs`). Each step of the walk up to the git directory is decided
  in `modules/git_branch.rs`. Laws that the library promises stand as `law_*` proof
  functions beside the code they speak of.
- `app/` is the program around it: reading stdin, the environment and
  the configuration file, looking at each directory's `.git` entry, reading the clock and time zone, writing
  the optional snapshot, and turning the payload's floating-point numbers
  into the whole numbers that the library reads.
- `tests/` runs the library on concrete values.

The configuration file is `$CCLINE_CONFIG` when that is set, else
`$XDG_CONFIG_HOME/ccline/config.toml`, else `~/.config/ccline/config.toml`.
