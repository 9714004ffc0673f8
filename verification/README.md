# ordo

An interactive review of a commit, a range of commits or the working tree, in an
order made for comprehension. The left pane lists the hunks in reading order, the
right panes show the code and why a hunk is where it is.

`src/` is the library. It holds everything that decides or computes: what a
revision means, which files are reviewed, how the engine's account of a change
becomes a list, how keys and commands change a session, what the panes show, and
what is kept between sessions. Every function states what it gives back or
changes, and Verus proves it. The proof functions named `law_…` state what holds
of several functions together.

Calls into other crates stand behind small functions whose contracts are taken
as given: `globset` for path patterns, `toml` and `serde_json` for files,
`tree-sitter`, `tree-sitter-highlight` and the grammar crates for code, and
`ratatui` for the division of the screen. Each says in its comment what it takes
the crate to do.

`tests/` runs the library on concrete values, with those crates linked.

`app/` is the program around the library: arguments, `git` and `but`, files, the
loading thread and the terminal. The engine that orders a change is a program of
its own, named by `$ORDO_ENGINE`; it reads one request in JSON and writes one
reply.
