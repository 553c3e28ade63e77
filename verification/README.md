# git-loom, verified core

`git-loom` keeps an integration branch woven from feature branches and drives
git to rebuild it. This crate holds the decisions it makes, each proved against
a contract over plain values (sequences of characters, views of the weave):

- `hunks`: which files a fold takes from the hunk picker.
- `targets`: which files a fold takes from its path arguments (`zz`, paths,
  short IDs), and how `diff` tells file targets from revisions.
- `status`: the changed paths that `git status --porcelain=v1 -z` lists.
- `exe`: which executable git gets as the rebase sequence editor (`/`
  separates path components, and `\` too on Windows).
- `rebase`: what a rebase run came to, what to report when it stopped, when to
  clean up after a failure, and linear rebase todos.
- `commit`: the amend a fold makes, the checks that it really committed, and
  what `git add` is handed when staging.
- `forward`: strict parsing of loom's own arguments before `--`, arguments
  after it, and where they land in each git command.
- `weave`: locating and swapping commits, refusing a swap whose commit
  replays empty, dropping what landed upstream (moving stacked branches down
  to the base of a branch that emptied), and the rebase todo that rebuilds
  the weave; with the laws that a swap is undone by swapping again and that
  dropping landed commits settles after one pass.
- `transaction`: a command's rebase as a state machine (start, pause on
  conflicts, continue, abort, finish), with the laws that every ending removes
  loom's state and puts the staging back before it reports, and that a pause
  keeps the state; also taking back a fold's commit that did not happen.
- `update` and `cleanup`: what an update fetches, that only an unreachable
  fork is forgiven, what it reports, and the offer to remove merged or gone
  branches, each listed once.

`app/` is a small command-line program on top of it, covering `show`, `diff`,
`add` and `commit` with their forwarded arguments; the weave-rewriting commands,
the hunk picker and short-ID allocation are not part of it, so it takes paths
and `zz` as file targets. `tests/` exercises the library on concrete values.
