# wasi_keyvalue_redis

A Redis-backed host for the `wasi:keyvalue` interfaces of Wasmtime, written in Verus.

All keys are stored in Redis as `wasi_kv:{bucket}:{user_key}`. Buckets are namespaces
within one Redis database, and an empty identifier opens the bucket `default`:

```
open("logs")   -> Redis keys "wasi_kv:logs:{key}"
open("cache")  -> Redis keys "wasi_kv:cache:{key}"
open("")       -> Redis keys "wasi_kv:default:{key}"
```

A colon in a bucket name is spelled as it stands, so the keys of the bucket `a:b` are
also keys of the bucket `a`. A listing gives the keys of its bucket only: in the pattern
that is sent, a backslash stands before each `*`, `?`, `[`, `]` and `\` of the name.

## Layout

- `src/` is the verified library. It does no input or output: a call finds its bucket,
  waits for a connection, gives the command to send and reads the reply.
  - `keys.rs`: how keys are spelled, and that buckets do not mix.
  - `glob.rs`: which keys a pattern matches, and the pattern of a text as it stands.
  - `table.rs`: buckets and the resource table that holds the open ones.
  - `store.rs`, `atomics.rs`, `batch.rs`: the calls of the three interfaces.
  - `call.rs`, `command.rs`, `error.rs`, `ctx.rs`: what the calls are made of.
  - `keyspace.rs`: what the calls do to the data, proved of a server that keeps a map.
- `app/` connects to Redis, sends the commands and registers the interfaces in a linker.
- `tests/` runs the calls against a server in memory.
