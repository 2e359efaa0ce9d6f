# unityassetdb

Indexes the asset references of a Unity project into a database. The library is written in Verus: every
function states in its contract what it returns, and the contracts are proved. Two contracts on functions
of the standard library are trusted instead: those of `String::push` (in `text`) and of
`Path::file_stem` (in `files`).

| module        | what it holds                                                                       |
|---------------|-------------------------------------------------------------------------------------|
| `command`     | the `index` subcommands, the place of the index, the status report                  |
| `course`      | the course of a build: a state machine from steps and events to steps and displays  |
| `course_laws` | what holds of every course of a build                                               |
| `runs`        | what holds of a whole build: nothing is left out, the index is switched at the end  |
| `tables`      | the rows of an index over a whole build, and what holds of them                     |
| `ledger`      | numbers the rows of a build and finds what they refer to                            |
| `progress`    | the weighted progress display and the breakdown of a build by phases                |
| `files`       | discovered files, the groups that phases go through, stored ids, assets             |
| `rows`        | rows of YAML objects and references, C# declarations and mentions, symbols          |
| `graph`       | entities with their objects and parents, and the edges between them                 |
| `vfs`         | the entries of the virtual file system: directories, files, nodes                   |
| `edges`       | the edges between entries                                                           |
| `edge_laws`   | which edges there are, kind by kind                                                 |
| `figures`     | counters, magnitudes, byte sizes and rates as text                                  |
| `double`      | binary64 arithmetic on integers, for figures that are rounded as doubles are        |
| `rounding`    | laws of that arithmetic                                                             |
| `lookup`      | tables from keys to row positions                                                   |
| `paths`       | virtual paths                                                                       |
| `text`        | numerals and small operations on text                                               |

`app/` is the command line program around the library: arguments, files, the SQLite database, and the
progress bars on the terminal.
