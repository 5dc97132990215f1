# thunder

Search, pick and fix in the terminal: a warm per-project trigram index with
a ripgrep fallback, a fuzzy picker, an omni palette, and native corrections
for mistyped commands.

The library in `src/` holds the logic, each function with a contract proved
by Verus:

| module      | what it decides |
|-------------|-----------------|
| `text`      | string primitives over `Seq<char>`: search, trimming, lines, splitting |
| `config`    | the configuration model, defaults, theme and preview choice, file locations |
| `safety`    | preview-command and command checks, path components, relative-path escapes, staying under the project root |
| `router`    | where a bare query goes (search, files, history) |
| `fuzzy`     | how a needle matches a haystack |
| `corpus`    | the line corpus (text and lowercase regions) and trigram keys |
| `order`     | byte order of strings and sorted insertion |
| `index`     | the trigram search index: building, searching, listing |
| `daemon`    | one request to the index daemon, one reply |
| `control`   | starting, recognising and reporting the daemon |
| `search`    | search options, plans, ripgrep arguments and events, picked matches |
| `pick`      | picker options, `fzf` arguments and output, the channel reader |
| `fix_rules` | the eleven correction rules |
| `fix`       | what `fix` does with the last failed command |
| `history`   | the command history and recent-file lookup |
| `palette`   | palette entries, plugin lines, the menu and the picked step |
| `scripts`   | `npm run` scripts from `package.json` text and Makefile targets |
| `git`       | path states from `git status --porcelain` |
| `editor`    | the editor and its argument vector |
| `cli`       | shells, the short binary name, command options, fix output |
| `doctor`    | the `doctor` report |

`app/` is the program around it: argument parsing, files, sockets,
processes, the skim and `fzf` pickers, serde formats, and the
floating-point ranking scores.
