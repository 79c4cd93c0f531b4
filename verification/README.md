# edge_cdn_store

The cache store of an edge server, verified with Verus.

A response that comes in from the origin is taken in piece by piece. While it
comes in, other readers can follow it. Once it is complete it is served from
memory, written to disk in the background, and served from disk after that.

## Layout

- `src/` is the verified library. It makes every decision of the store and keeps
  all of its books: admission, limits, lookup, purging, metadata, the plans for
  the disk, the ranges that readers serve, the metrics, and the bookkeeping of an
  io_uring instance. It performs no I/O.
- `app/` is the pingora storage backend around it: tasks, files, the runtime, the
  YAML file, the environment, Prometheus and the kernel's ring.
- `tests/` runs the library on a disk that is simulated in memory.

## What is proved

`src/state.rs` describes the store as a value and each operation as a function
on it; the contracts in `src/storage.rs` and `src/miss.rs` say that the code
computes exactly these functions. `src/files.rs` does the same for the disk: what
each step of a plan does to the files. On top of both, `src/laws.rs`,
`src/history.rs`, `src/files.rs` and `src/probe.rs` prove what the operations add
up to, among it:

- what was written is read back, from memory and from disk, in order and whole;
- a reader that follows a write gets the body without gaps or repetitions;
- limits on bodies, on writes in progress and on bytes on disk are never passed,
  and a write that is refused, given up or finished keeps no place, whatever
  else happens;
- a finished object stays a hit with the same body, first in memory and then on
  disk, until its key is purged or written again (keys with the same hash share
  a directory, and are left out);
- a lookup during publishing by rename finds the old entry, no entry or the
  complete new one, wherever publishing stops and whatever fails on the way, and
  a reported success means that the entry is there, whatever became of the steps
  that are only tried;
- a purged key is gone, object, writes in progress and files, and other keys are
  not affected in memory;
- an operation on the ring gets an id of its own, a file that is open in a way it
  can use, and one answer.

## On disk

    <root>/<hh>/<hh>/<hash>/body.bin
                            meta_internal.bin
                            meta_header.bin

The hash is the 64-bit FNV-1a hash of the cache key in sixteen hex digits, and
the two directories above it are its first two pairs of digits.
