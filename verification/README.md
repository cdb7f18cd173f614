# Port Scout

Port Scout is a menu bar application that keeps track of local development servers: which project
runs on which port, whether it is running, and which servers on the machine belong to a project at
all. It opens, starts and stops them.

The library under `src/` holds the rules of the application: what its parsers read, what is said of
each project, what is stopped, started and discovered. Their behaviour is stated in contracts and
proved with Verus. The application under `app/` runs commands, reads and writes files, draws the
window and hands the library what it found. Where the window goes is decided there too, in
`app/popover.rs`, because it is arithmetic on floating-point display coordinates. The crates `log`
and `serde` are used by `app/` alone.

## Modules

| Module | What it decides |
| --- | --- |
| `text`, `numbers`, `paths`, `text_map` | text, decimal numbers, paths and maps with text keys |
| `commands`, `stamps`, `manifest` | what comes from commands, the clock, chance and `package.json` |
| `listeners`, `snapshot` | reports of listening processes and the snapshot made of them |
| `ports`, `ranking`, `detection` | ports and start commands in the files of a project |
| `projects`, `ordering` | the list of projects and the changes to it |
| `ownership`, `status` | to which project a listening process belongs, and what is shown of it |
| `control` | stopping and starting servers, step by step |
| `folders`, `discovery` | servers in the chosen folders that belong to projects |
| `branch`, `launch`, `window` | the branch shown, the search path for commands, the window |
| `list_laws`, `listener_laws`, `port_laws` | what holds across functions; other laws stand beside what they are about |

## Safety of stopping a server

A process is signalled only if it listens on the project's port, works inside the project's
directory, and nothing that listens there works inside the directory of a project with another
identifier. It is forced to end only after it was asked to and did not. See
`control::law_kill_stays_within_the_project` and `control::law_force_only_after_asking`.

## What is trusted

The contracts of a few outside functions are believed without proof. Each stands on a small wrapper
with a comment that says what is claimed: `serde_json` in `manifest`, `uuid` and `chrono` in
`stamps`, `String::from_utf8_lossy` in `commands` and `String::push` in `text`.
