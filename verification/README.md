# nodedb_data

The decisions of a database's data plane, as a verified library.

A core of the data plane executes plans against several engines: documents, key
and value pairs, vectors, geometry, graphs and timeseries. What those engines
store is theirs. What is decided around them stands here, with contracts that
Verus proves: what a transaction stages and reads back, how a commit becomes a
redo record and how that record is replayed, how a rollback restores what was
there, which records of the log a starting core replays, how checkpoints and
snapshots are named, written and loaded, how lines of a timeseries are read,
stamped, admitted and ordered, how groups spill to disk, and how reads are
batched through a ring.

## Layout

- `src/` is the library. Where a decision needs what an engine, a disk or the
  kernel says, the answer comes in as an argument.
  - `ids`, `text`, `hex`, `maps`, `sorting`, `codec`, `error`, `wal`: what the
    rest is made of. `codec` and a few functions of `text`, `timeseries` and
    `vectors` call outside crates; each such call has a contract of its own.
  - `core_loop`, `held`: the state that a core keeps between requests.
  - `overlay`, `transaction`: staging, resolving, puts, deletes and undo.
  - `replay`, `checkpoint`, `snapshot`, `purge`: what outlives a process.
  - `timeseries`, `vectors`, `spatial`, `spill`, `join_update`, `row_format`:
    the engines' side of requests.
  - `uring`: batches of reads.
- `app/` is the outer side: files, the ring of the kernel, the calls of row
  writes and of a replay, values in foreign formats, answers as JSON.
- `tests/` runs the library on concrete values.

Properties that span functions are public proof functions whose names begin
with `law_`.
