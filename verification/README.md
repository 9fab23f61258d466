# seamless

A multi-link transmission daemon: packets read from a tunnel interface are
scheduled over several UDP links, framed with a small multilink header, and
reordered and de-duplicated on the receiving side. Link health (loss,
latency, timeouts) and external radio measurements steer the schedulers.

## Layout

- `src/` is the core, written in Verus and verified: the wire header and its
  encoding, link bookkeeping (loss window, keepalives, round trip time
  echoes, state machine), the reorder buffer and de-duplication, the
  schedulers with their time-to-trigger and smooth-transition logic,
  application matching, configuration checks, measurement routing, metric
  labelling, and the decisions of the sending, receiving and monitoring
  tasks. Each public function states its behaviour in `requires`/`ensures`;
  the `lemma_*` proof functions state properties that span functions.
- `app/` is the program around it: configuration parsing, sockets, the
  tunnel device, timers and tasks, InfluxDB and ZeroMQ clients, and the
  floating point parts (smoothed round trip time, loss percentages,
  datarates, radio quality).
- `tests/` exercises the library on concrete values.
