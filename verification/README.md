# orqa

`orqa` coordinates local agent runtimes ("fins") grouped in pods: each fin
gets a maildir for mail and for tasks, a run history and a lock file, and a
wake loop starts the fins that have work.

The library in `src/` holds the rules and is verified with Verus; every
public function states its result in `ensures`, and the `law_*` proof
functions state what holds across calls:

- `model`: slugs, fin and mail addresses, the registry and pod paths.
- `register`: registering a pod in the global config and toggling a hook,
  as edits of parsed TOML tables.
- `mailbox`: routing, listings, maildir names, task front matter
  (`tasks`), and what a task document gives back when read again
  (`round_trip`).
- `config`: pod and fin templates, durations, backend commands and the run
  policy, read from TOML tables given as `ConfigValue`.
- `runtime`: wake decisions and plans, lock files and claims.
- `runs`, `status`, `issues`, `report`, `hooks`, `doctor`, `templates`,
  `service`, `commands`, `loop_worker`: the remaining commands' logic.
- `text`, `paths`, `stable`, `config_file`: strings, paths, facts about
  sorting with ties, and TOML text parsed into configuration tables.

`app/` is the command-line program around the library: argument parsing,
files, processes, time and TOML/JSON encoding. `tests/` runs the library on
concrete values.
