# springx

A command-line client for Spring Initializr (start.spring.io): it generates
Spring Boot projects, and adds, removes and updates the dependencies of an
existing Maven or Gradle build.

The library in `src/` is written in Verus: each function carries a contract
over a mathematical model (sequences of characters for text, views for the
data types), and Verus proves the code against it.

- `metadata` — the service's metadata and its mapping to the view model.
- `generate`, `paths`, `archive`, `template`, `docker`, `git`, `tree` — a
  new project: its settings and their validation, the archive's address and
  contents, where things go, what is added to it, and how it is listed.
- `deps`, `changes`, `edit`, `scan`, `artifacts`, `project` — an existing
  build file: what it declares, and how adding or removing a dependency
  changes its text.
- `interactive`, `search`, `info`, `update`, `doctor` — the decisions
  behind the interactive commands.
- `text`, `order`, `version` — text primitives, orders, and Spring Boot
  versions and version ranges.

`app/` holds the executable: argument parsing, the network, the terminal
and the file system. `tests/` exercises the library on concrete inputs.
