# codefinder

Organising local Git repositories into folders, showing their state at a
glance, and opening them in an editor.

The library (`src/`) is verified with Verus. Every change to the stored data,
every summary built from Git data, and every decision the views make is a
function with a contract over mathematical models (sequences, a view of each
type, `int` and `nat`):

- `store` — folders, tracked repositories and custom editors; each change is a
  spec function over the data's view, with laws relating them.
- `git` — working-tree tallies, contributors, branches and commits, remotes,
  default branches, language ranking.
- `ide` — known and custom editors.
- `commands` — summaries, details, the activity feed, and plans for opening
  and syncing repositories.
- `ui` — navigation, glyphs, status pills, relative times, list filtering and
  ordering, dashboard, command palette, avatars.
- `icons` — the SVG icon set.
- `order`, `search`, `text` — stable ordering, first-match search, and string
  operations with their meaning.

`app/` is the command-line program around the library: it reads repositories
with git2 and walkdir, keeps the store in a JSON file, runs `git`, and prints.
