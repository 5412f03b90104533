# sunmao

A multi-project DAG task orchestrator: planners publish graphs of packages
and tasks, workers claim ready tasks under leases, submit their work as git
commits, and every change is recorded as an event from which the state
projection can be rebuilt.

The library in `src/` holds the orchestrator's logic, verified with Verus:

| module | what it decides |
|--------|-----------------|
| `state_machine` | task, scope and plan states and their legal transitions |
| `write_scope` | write-scope normalisation and prefix overlap |
| `ready` | when a task is ready |
| `dag`, `graph` | publish validation (cycles, conflicts, orphans, …), topological order, ready tasks after a publish |
| `projection` | replaying the event stream into the state projection; the ready recompute and its consistency check |
| `impact` | the nodes downstream of a changed contract |
| `store` | leases, attempts, submissions, claims, scope changes, contracts, paths, paging |
| `validators` | the built-in validators' verdicts |
| `git` | reading `git status` and `git log` output; splitting changes by scope |
| `error`, `service` | store errors and their HTTP replies; the actor header, lease tokens, the listen address |
| `cli` | project choice, the terminal picker and editor, URL encoding, CLI texts |
| `id` | prefixed ULID identifiers |

`app/` is the program around it: the PostgreSQL store, the git CLI calls,
the HTTP service (`sunmao server …`) and the human CLI (`sunmao …`).
`tests/` exercises the library.
