# overstay

The decisions behind `cargo overstay`, a small tool that keeps Rust `target/`
directories from filling a disk, written and proved in Verus.

## How it is built

`src/` is the library. It does no input or output: a command is a value that
names the one thing it wants done next (`request`) and takes the answer
(`answer`). Each of them has a model, and its contract says which request
belongs to which state and which state follows which answer. Paths, arguments
and file names are byte strings.

`app/` is the program around it. It performs the requests: reading directories,
deleting targets, running cargo, printing.

| Module | What it holds |
| --- | --- |
| `dispatch`, `cli` | where an invocation goes, and the verbs of the command line |
| `scan`, `walk` | the scan options and roots, and the walk that finds targets |
| `purge`, `purge_command`, `delete`, `confirm`, `purge_text` | `cargo overstay purge` |
| `ls`, `ls_text`, `rank` | `cargo overstay ls` |
| `passthrough`, `detached`, `shim` | the cargo shim and its background worker |
| `path`, `text`, `style`, `messages`, `store` | paths, texts, colors, messages, records |
| `walk_laws`, `loss_laws`, `purge_laws`, `consent_laws`, `ls_laws`, `command_laws`, `passthrough_laws`, `agreement` | what holds of whole runs |

## What is proved

Among the laws: a target is deleted outright only where cargo's own markers are
inside, and one that a scan found only where a manifest stands beside it too;
everything else needs the user's consent, who is asked once, and a no is final;
nothing is removed without cargo's build lock; a scan stays below its roots, on their filesystem, never follows a symlink and never enters a
`target/`; it reports every target that something vouches for, once; `ls` lists
what `purge` would act on; cargo's arguments and exit code pass through the shim
unchanged.

What is believed without proof are two functions of the standard library, both
in `text`: `String::from_utf8_lossy` and `core::str::from_utf8`.
