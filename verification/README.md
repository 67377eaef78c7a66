# bench-harness

Runs fuzzing benchmarks in virtual machines: builds the disk images, starts workers, hands each
trial of each task to a worker, and gathers what the trials found.

```
bench-harness build
bench-harness --workers=1 bench --id=001 --trials=1 'task-1,task-2'
bench-harness debug INSTANCE
bench-harness expand-task TASK
```

## Layout

* `src/` is a library, verified with Verus. It decides and computes; it reads and writes nothing.
  Work that alternates with input and output is a small state machine: the caller performs an
  action, hands back what became of it, and is told what to do next.
* `app/` is the program around it: files, processes, threads, and the formats of the configuration.
* `tests/` runs the library.

| module | what it holds |
| --- | --- |
| `args`, `run`, `config` | the command line, the steps of a call, the files of a configuration |
| `vars` | variables and the templates that refer to them |
| `bench`, `workers` | the trials of a benchmark and who runs them |
| `instances`, `images`, `docker`, `debug` | virtual machines and the images they boot from |
| `icicle` | runs of the fuzzer and its monitor |
| `lava` | which injected bugs the crashes trigger, and when each was first found |
| `agent`, `shell`, `paths`, `text`, `duration`, `wait`, `guard`, `cancel` | what the others are made of |

A few functions call other crates or the standard library behind contracts that Verus takes as
given. Each says in its doc comment what it calls and what it claims.
