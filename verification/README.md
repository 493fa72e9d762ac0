# alfs

A CPU scheduler simulation in the manner of Linux CFS. Time frames of events come in as JSON; for
each one the scheduler takes in the events, gives every CPU a task for one quantum, and reports the
schedule. CPU time is shared between control groups by their shares, and between the tasks of a
group by their weights.

The library in `src/` is verified with Verus; `app/` is the program around it.

| module | what it holds |
| --- | --- |
| `model` | tasks, control groups, the world, the weight table |
| `event`, `json` | what events ask for, and how they are read from JSON values |
| `scheduler` | the scheduler itself: `Scheduler::on_tick` |
| `state`, `tick` | what the scheduler does, as functions on its contents |
| `report` | the report of a tick as a JSON value and as text |
| `config`, `framing` | the command line, and cutting a byte stream into time frames |
| `idmap`, `queue`, `text`, `number` | ordered maps, queues, texts, decimal numbers |
| `search`, `placing` | facts about searching queues and seating tasks |
| `laws`, `ready`, `homes`, `accounting`, `effects` | what holds of every scheduler and every world |

`laws` speaks of schedules: they fit, name no task twice, leave no CPU idle without cause, and are
fair. `ready` and `homes` hold the invariants that this rests on, `accounting` speaks of virtual
runtimes, and `effects` of what events change.
