# gitprism

The verified core of GitPrism, a desktop git client: what git's output
means and which git command lines to run, proved with Verus.

## Layout

- `src/` — the library, all of it verified:
  - `text`, `order`: the text model (splitting, trimming, lines, number
    parsing, the order of `String`) the contracts are stated over;
  - `types`: the values handed to the frontend, with their views;
  - `status`, `diff`, `log`, `refs`: parsers of `git diff --name-status`,
    `--numstat`, unified diffs, `git log`, `shortlog`, `stash list`,
    `blame --line-porcelain`, `grep -n`, `for-each-ref`, `remote -v`,
    `status --porcelain`, and the changes list they make up;
  - `commands`, `ops`: the argument lists of every repository action and the
    errors that refuse one;
  - `filediff`, `hunks`: the conversations that build one file's two sides
    for the diff view and that apply one hunk, one step per answer;
  - `paths`: path components and joining as Unix or Windows reads them (the
    app says which it runs on);
  - `repo`, `listing`, `lang`, `stats`, `search`, `replace`, `console`,
    `watch`, `output`: repository state, the file list and viewer, languages
    and line counts, the language statistics, history search, replace in
    files, the console log, change-event coalescing, and git's error and
    progress streams.
- `tests/` — scenarios and examples run against the compiled library.
- `app/` — the desktop backend around it: running git and reading files,
  the watcher, the command layer, the wire types and the Tauri shell.
