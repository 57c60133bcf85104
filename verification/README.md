# remtodo

Keeps Apple Reminders and a todo.txt file in step, in both directions.

`src/` is the library. Everything that decides what a sync does stands there and is
verified with Verus: the three-way comparison of a reminder, its task and what they
last agreed on; the plan of a run; its effects on the file and on the state; the push
filter; recurrence; the guards against losing data; the undo log. Contracts speak of
mathematical views of the data: a `Task` is a `TaskView`, a run's input a `Scene`, the
file with its known pairs a `Board`.

`app/` is the program around it: arguments, files, the helper program that talks to
Reminders, launchd, signals. It hands plain values to the library.

## Modules

| module | what it holds |
|---|---|
| `text`, `dates`, `keyed` | texts, dates and times, maps and sets with text keys |
| `task`, `filter` | tasks of a todo.txt file, and the push filter, on top of todo_lib |
| `reminder`, `mapping`, `swift_cli` | reminders, how they become tasks, the helper's language |
| `sync::diff` | the three-way comparison and what it does to a task |
| `sync::plan`, `sync::release` | what a run does, and which tasks it lets go |
| `sync::apply`, `sync::check` | the effects of a run, and whether they are consistent |
| `sync::bootstrap` | what belongs together on the first run |
| `sync::safety`, `sync::recurrence` | guards, and the next instances of recurring tasks |
| `sync::laws` | what holds of all of these together |
| `execute`, `undo` | changes to reminders and their answers, and taking them back |
| `run`, `session` | the steps of a run, and the machine that goes through them |
| `config`, `lock`, `launchd`, `sync::persistence` | settings, paths, the lock, the agent |

What the library takes from outside crates on trust is declared beside its use, each
time with a comment that says what is claimed: dates from chrono, lines, tags, filters
and recurrence from todo_lib, the home directory from dirs.
