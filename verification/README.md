# forge_scheduler

A scheduler for graphs of planning and execution nodes, written and verified in
Verus.

A run starts from one plan node. Plans add nodes, work nodes produce changes,
and changes reach the artifact (a branch of a repository) only through
integration. Failed nodes stay in the graph as records; recovery puts a new
node in their place. Teams act on the tasks in a manifest that is kept in the
artifact.

## Layout

- `graph`, `queries`, `closure`, `mutations`, `invariants`, `soundness`: the
  run graph, what is asked of it and what is done to it.
- `state`, `event`, `effect`, `types`, `failure`, `teams`, `manifest`: the
  vocabulary of the machine.
- `machine`, `recovery`, `triggers`, `language`: the transition function and
  the rules it follows.
- `dispatch`, `node_runner`, `validation`, `validation_plan`, `artifacts`,
  `attempts`, `integration`, `work_steps`, `workspace_changes`: running a node
  and integrating what it did.
- `handler`, `effect_steps`, `driver`, `checkpoint`, `progress`, `telemetry`,
  `cli`: what stands between the machine and the outside world.
- `laws`: what holds of every run.
- `text`, `search`, `node_ids`: texts, searches and ids.

Every data type has a mathematical value (its view), and contracts speak of
these values. Work that only the outside world can do (running nodes, version
control, validation commands, files) happens between steps: a step takes what
came of the last request and returns the next one. `app/` performs the
requests.

`tests/` runs the library, with a repository held in memory where one is
needed.
