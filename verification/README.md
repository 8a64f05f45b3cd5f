# Herdr Tab Title

Automatic tab titles for [Herdr](https://herdr.dev): every tab is labeled after the
agent, the program in the foreground or the idle shell of its pane, and the window of
the terminal gets a title by a template.

`src/` is the library. It holds every decision of the plugin as executable Rust with
contracts that Verus proves; it touches no file, process or clock. `app/` is the
program around it: it reads and writes the files, runs Herdr and does what the library
says.

| Module | What it decides |
| --- | --- |
| `text`, `number`, `text_map` | strings, decimal numbers, maps from strings to strings |
| `directory`, `label` | how directories are shown, what labels look like |
| `template` | window titles |
| `process`, `windows` | which process is in the foreground, by Herdr or by the process tree |
| `config`, `cli`, `host` | settings, arguments, home directory and host name |
| `json`, `herdr` | Herdr's commands and replies |
| `tab`, `naming` | which tabs are managed, which pane names a tab, and how |
| `sync`, `outcome` | a sync step by step, and what a whole sync comes to |
| `watcher` | the watcher, its locks, and syncs after events or on request |
| `history` | what the machines come to over any row of events |

Work that waits for the outside is written as machines: a step takes what has happened
and gives what is to be done next. The functions whose names begin with `law_` state
what holds of the library as a whole, such as that a second sync changes nothing.

A name on Windows, or a directory beside the home directory, is cut by bytes; where the
cut would fall into a character the library does not accept the value, and says so
before (`advance` in `sync`, `is_comparable` in `directory`).
