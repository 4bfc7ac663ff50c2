# draug

A small, cgroup-aware process supervisor that restarts one target process
gracefully, before the OOM killer does. `draug` runs as a child of an init such as
`tini` and wraps one long-running command:

    tini -g -- draug --mem-threshold 0.85 --grace-period 90s -- python worker.py

The target is drained (graceful signal, grace period, SIGKILL) and replaced on a
periodic timer, a memory threshold, memory pressure, or a stale heartbeat. Crashes are
backed off from, and a crash loop is given up on.

## Layout

* `src/` is the library. It holds every decision and no I/O, and it is verified with
  Verus: each function has a contract, and what holds of the whole is stated as public
  proof functions.
* `app/` is the program around it: arguments, files, descriptors, threads and HTTP.
* `tests/` runs the library on concrete values.

| module        | what it decides                                                       |
|---------------|-----------------------------------------------------------------------|
| `decision`    | whether the samples call for a restart, and why                        |
| `fsm`         | the lifecycle: next state, accounting and actions for every event      |
| `fsm_laws`    | what holds of the lifecycle over every step and every run              |
| `supervisor`  | events of a wakeup, sampling, and how actions are carried out          |
| `alert`       | severity, and the bounded queue of alerts                              |
| `config`      | flags and environment, checked                                         |
| `cgroup`      | where the controllers are, usage, limits and ratios                    |
| `procfs`      | the mount table and the cgroup memberships                             |
| `psi`         | memory pressure                                                        |
| `heartbeat`, `child`, `diagnostics`, `log` | age, launch and wait answers, snapshots, lines |
| `binary64`    | double-precision numbers by their bits: comparison and rounded division |
| `calendar`, `path`, `text`, `time` | dates, Unix paths, small-text parsing, spans      |

Functions that look at files take the looking as a parameter (`read`, `present`, `age`),
and their contracts say which path is asked about and what is made of each answer.
Floating point is left to the program; the library works on the encodings of numbers.
