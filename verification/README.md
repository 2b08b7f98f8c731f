# seer

A viewer for bunyan logs: records of several sources, merged by time, in tabs
with filters, searches, bookmarks and summaries.

The library under `src/` is verified with Verus.  It holds everything that the
viewer decides: the merge and its walk in both directions, the events, the line
editor and the dialogs, the tabs, what every key does, what is saved and when,
and every line that stands on the screen.

- `engine`, `walk`, `source`, `position`: the merge over sources, and walks
  along it.  `engine::laws` states what holds of the merge as a whole, and
  `walk::laws` what holds of a stepper as it is walked.
- `event`, `filter`, `pattern`, `clock`: records, and what is asked of them.
- `text`, `number`, `double`, `format`: texts, cut, wrapped and composed, and
  the arithmetic behind sizes, rates and shares.
- `editor`, `dialog`, `display`, `help`, `search`, `key`: what the user types
  into.
- `rows`, `tab`, `session`, `app`, `command`: the application.  It holds its
  state and an outbox of commands; whoever runs it performs the commands and
  reports back.  `app::laws` states what every step keeps.
- `area`, `screen`: what is drawn, as plain values.
- `startup`, `seeit`, `long_op`, `queue`: the choice of a session at the start,
  the companion for scripts, work that takes long, and the requests for it.

The programs under `app/` do the rest: they read files and keys, draw with
ratatui, save sessions and carry out the commands.
