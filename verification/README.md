# ai_memory_purge

Strong deletion of one session from an agent's memory, verified with Verus.

Deleting a session means that nothing of it is left: not in the tables, not in the wiki
or its git history, not in the monthly logs, and not after a backup is restored. The
library in `src/` decides what goes and what stays, on plain values, and proves it. The
program in `app/` reads and writes the database, the repository and the files.

| module | what it is about |
| --- | --- |
| `text`, `order`, `ids`, `clock`, `error` | texts, sorted lists, identifiers, instants, refusals |
| `store` | the tables, as far as a purge reads them |
| `session_purge`, `purge_laws` | purging a session, and what holds of every purge |
| `ledger`, `ledger_laws` | the tombstones, and reapplying them after a restore |
| `git_tree`, `git_purge`, `git_laws` | rebuilding a history without purged paths |
| `git_swap` | swapping the rebuilt repository in, and recovering from interruptions |
| `log_purge` | removing a session's entries from the monthly logs |
| `restore` | which archive entries are accepted, and when a restore fails closed |
| `purge_command` | what the command sends and prints |
| `chat` | provider-neutral chat requests and reasoning efforts |

A contract that is not proved but relied on stands where an outside crate is called:
`uuid` in `ids`, `jiff` in `clock`, `git2` in `git_purge`, `tar` in `restore`, and three
functions of the standard library in `text`, `chat` and `purge_command`.
