# selene

A shard-per-core backend framework, with its decisions verified in Verus. One OS
thread per shard, each owning a `compio` runtime, its own `SO_REUSEPORT` listener,
and its own connection state. No connection migration.

## Layout

- `src/` is the library: placement, fan-out and shutdown of the pool (`shard`), one
  shard's life (`session`), listeners, admission and the connection registry
  (`listener`), background priority (`budget`), stall detection (`watchdog`), the
  channels in between (`channel`), and RESP framing (`resp`). Every function in it is
  verified against its contract, except the few wrappers around calls into other
  crates (see below). Functions named `law_...` state what holds of
  several functions together.
- `app/` runs the library on `compio`: threads, runtimes, sockets, clocks and logs,
  the `Service` trait that an application implements, and two servers, `echo` and
  `ping`.
- `tests/` runs the library on concrete values.

## What is trusted

The library calls three crates, each behind declarations whose contracts are not
proved:

- `slab`, for the connection registry: what a slab holds after each call, by key.
- `flume`, for the channels: that a value which cannot be sent comes back.
- `core_affinity`, for the CPUs of the machine: that they come in ascending order.

## Control plane

Selene spawns shard threads and nothing else. Anything that can run late without a
client noticing belongs on a runtime that the application builds and owns. It reaches
the shards through `stats`, which gathers per-shard counters with one message per
shard, and `affinity`, which gives the CPUs that the shards claimed.
