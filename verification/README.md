# rpc-replay

Replays a cache trace against a memcache server: the requests of a trace are
sent at the pace at which they were recorded, over a pool of connections for
each worker thread.

`src/` is the library, verified with Verus:

- `binary` and `text` read the two forms of a trace, `split` and `decimal` the
  fields of a line and the numbers in it;
- `reader` decides, step by step, what is done about each record; `pacing` tells
  when it is due, and `tally` counts what became of it;
- `request` and `values` put requests on the wire, `protocol` shows that they can
  be read back, and `response` takes responses from what the server sent;
- `queue` is the queue between the reader and the workers, with its two ends, and
  `work` hands requests over;
- `event` and `worker` decide what a worker does about each event of its
  sessions, which `pool` and `buffer` keep;
- `history` shows what holds over all that a worker does: what it takes from the
  queue is what it sends, and each session has one request at a time;
- `config` and `metrics` are the settings and the counts.

`app/` is the program around it: arguments, files, connections, clocks, threads
and the speed, which is a floating point number.

What the library takes from the crates `bytes`, `mpmc`, `rand`, `rand_distr`,
`rand_xoshiro` and `slab` is stated, not proved, in `buffer`, `queue`, `values` and
`pool`.
