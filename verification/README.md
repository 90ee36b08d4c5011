# rusnapshot

Rules and decisions of a btrfs snapshot keeper, verified with Verus, and the command line program
around them.

The program takes read-only or read-write snapshots of btrfs subvolumes, tracks them in a SQLite
file, deletes those beyond the last ones of a kind, restores them, and replicates them to other
disks and hosts with `btrfs send` and `btrfs receive`.

## Layout

- `src/` is the library. It decides from plain values: but for the clock and the hostname it reads
  nothing, and it writes nothing.
  - `args`, `run`: the options, their precedence, and what a run does with them.
  - `database`, `tracking`, `changes`, `order`, `pattern`: the two tables, what each operation adds,
    changes, removes and selects, what has to be written for it, and what holds of them throughout.
  - `operations`, `places`, `paths`, `structs`, `utils`: the `btrfs` command lines, the paths of
    snapshots, and what may be deleted or restored.
  - `controller`, `deleting`, `restoring`: taking, deleting, cleaning, restoring and listing.
  - `replication`, `shell`, `transfer`, `delivery`, `sending`, `retention`: targets, the commands
    that reach them, the course of a transfer, of a delivery, of a round and of a run over all
    targets, and what is kept there.
  - `excludes`, `filters`, `staging`, `contents`: the paths left out of replicas, the filtered
    copies, and what is left in them.
  - `text`, `sizes`: texts and readable sizes.
- `app/` is the program: options, SQLite, processes, the file system, printing.
- `tests/` runs the library.

Operations that take several steps outside of the library are written as state machines: a value
says what is done next, the program does it and reports what came of it. The contract of each
`next` function is a specification function named `after`, and what holds whatever happens on the
way, such as that a replica is recorded only once its identity was verified, or that the row of a
snapshot stays as long as its subvolume, is proved over all sequences of events.

## What is trusted

Four functions call other crates and carry contracts that are not proved: the hostname, the clock,
MD5 digests, and the names at the top level of a TOML document. Their doc comments say what is
claimed of each.
