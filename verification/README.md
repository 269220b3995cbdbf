# vanguard

A verified library for a small infrastructure suite: a stroke-ingestion
proxy, an event processor fed through a single-producer/single-consumer ring,
a key-value server with a write-ahead log, and a time-travel store.

- `src/` is the library, checked by Verus:
  - `ring`: the SPSC ring of stroke events (FIFO, capacity, the two handles' invariants);
  - `text`, `parser`: words and the command language of the key-value server;
  - `record`: the escaped record format of the write-ahead log;
  - `engine`: the table, log replay and compaction;
  - `server`: what one client message does to the table and what it answers;
  - `timeline`: the per-key write history and the read at a point in time;
  - `lexer`, `ast`: the rule language;
  - `stroke`: stroke frames, their events, and the scoring of a session;
  - `client`, `metrics`, `pool`: the client's prompt, the metrics response, the proxy's pools.
- `tests/` runs the library on concrete values.
- `app/` holds the programs (servers, clients, I/O, floating-point kinematics).
