# rio_sessions

Terminal sessions that come back. Tabs, splits, directories and scrollback are
saved and restored; where panes are kept, each shell lives behind a small daemon
(`rio-ptyd`) that outlives the terminal, and a restore attaches to it again, here
or at the other end of ssh.

The library in `src/` holds the decisions, and Verus proves them against the
contracts that stand beside them. It touches no file, socket, process or clock:
`app/` does, hands plain values in, and does what it is told.

| Part | Modules |
| --- | --- |
| The daemon and its wire format | `protocol`, `ring`, `modes`, `daemon`, `launch`, `pane`, `procfs` |
| The command line and the clients | `cli`, `attach`, `remote`, `json` |
| Panes, tabs and windows | `context`, `opening`, `tabs`, `rebuild`, `confirm` |
| Saved sessions | `session`, `saved`, `kept`, `close`, `config` |
| The program | `application`, `desk`, `dispatch`, `input`, `events`, `triggers`, `matching` |
| The screen | `grid`, `grid_grow`, `grid_shrink`, `graphics`, `images` |
| Shared | `text`, `words`, `table` |

Public proof functions named `law_...` state what holds across functions: what a
frame that was written is read back as, that no daemon is orphaned by a save, that
a resize keeps the text, that a client attached in the middle of a stream sees what
it would have seen from the start. They stand beside what they are about, or in the
modules whose names end in `_laws`.
