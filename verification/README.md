# bstk

The core of a beanstalkd-compatible work queue, with its behaviour stated and
proved in Verus: the engine that holds jobs, tubes and connections, the wire
protocol, and the logic of a load generator.

- `src/` is the verified library. `rules` and `steps` say what each command and
  each other event does to a `Model` of the queue; `engine` does it on indexed
  data and is proved to agree. `parse`, `codec`, `response`, `stats` and `scan`
  are the wire protocol. `load`, `reply` and `latency` are what the load
  generator sends, reads and reports.
- What holds of the whole is proved in `settle` and `engine/order` (everything
  is in order between events), `journal` and `restart` (no job is lost, and a
  log that is given the journal brings the jobs back), `unseen` (keeping a
  journal changes no reply), `repeatable` (one history leads to one state,
  whatever the host), `engine/state/same` (a restored engine is the same, and
  what is taken out of one agrees with itself), `engine/reports` (the figures of
  stats add up), `answers` (a command is answered
  once), `resting` (a tick leaves nothing due), `refused` (a refused command
  changes nothing), `stream` (chunking is invisible), `announcing` (announcing
  puts adds announcements only), `sending` (what a client sends is what the
  server understands) and `reading` (what the server replies is what a client
  reads).
- `engine/faults` lists what can be wrong with a state from outside, in which order
  it is looked for, and how each fault is told.
- `tests/` runs the library on examples and on random histories.
- `app/` is the load generator itself, and the glue that a server needs:
  tokio-util's codec traits and snapshots in postcard.

Outside crates are called through a few trusted items: `bytes` in `buf`, and
five functions of the standard library in `scan`, `reply` and `latency`.
