# gitlog

The logic of four small GTK tools for a git repository: a history viewer
(`gitlog`), a commit window (`gitcommit`), a push window (`gitpush`) and an
editor for the details of one commit (`gitrebase`). Plain `git` is run on
the command line; everything the tools decide from its output is a verified
library.

## Layout

- `src/` - the library, verified with Verus:
  - `text.rs`: the character-level model of the `str` operations the parsers
    use (lines, splitting, trimming, numbers), stated over `Seq<char>`.
  - `gitlog.rs`: the parsers of git's output (remotes, branch tips, file
    sizes, name-status and numstat, work-tree changes, the previous
    commit's files and message, commit details) and the git arguments of
    the index and commit commands.
  - `log.rs`: the history reader, one `git log` line at a time.
  - `rewrite.rs`: editing a commit's details as a sequence of git commands,
    each decided from the outcome of the one before.
  - `commit.rs`: the file rows of amend mode and the index updates of a
    commit.
  - `push.rs`: the push targets, the `git push` arguments and the error
    report.
  - `labels.rs`: the texts shown for the data, the history filter and the
    checks of the rebase window's fields.
  - `i18n.rs`: the UI language and the localized dates.
- `tests/` - tests of the library on git output.
- `app/` - the program: the windows, running git, reading the environment.
  One binary serves all four tools, chosen by the name it is started under.
