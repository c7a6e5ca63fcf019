# pike

A unified package manager front end for Linux (dnf5, flatpak and apt),
with its decision logic written in Verus and proved against its contracts.

## Layout

- `src/` is the verified library:
  - `package`, `error`, `config`, `db`: the data model, the configuration
    with its TOML rendering, and the conversion of cached rows.
  - `source/`: one parser per backend (`dnf`, `flatpak`, `apt`) for the
    text that the package tools print, and the command lines handed to them.
  - `version`, `order`, `util`, `text`, `assoc`: version comparison, sorting,
    filtering and string helpers, each with the laws they obey.
  - `cleanup`, `manager`: kernel retention, removal lists, grouping by source
    and the validation of new repositories.
  - `cli`, `forms`, `lists`, `dialog`, `settings`: the decisions of the
    command line, the daemon and the terminal interface (tabs, the add-repo
    form, filtered lists, dialog wrapping and the settings screen).
- `tests/`: the test suite, run against the compiled library.
- `app/`: the program around the library: command-line parsing, running the
  package tools, the SQLite cache, the daemon and its socket, and the
  terminal drawing.
