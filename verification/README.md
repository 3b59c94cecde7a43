# seisin

Ownership of data by threads. Every datum has one home, a thread of one node of
a cluster, which a ring of slots decides. An op names the data it works on; they
are brought together on one thread, the op runs there, and the data go home
again. What an op writes is on storage nodes before the op is acknowledged.

`src/` is the library, in which every function has a contract that Verus proves:

- `jump_hash`, `ring`: where a datum is at home, and what moves when nodes come
  and go
- `collation`, `worker`, `message`: who holds a datum, who waits for it, and what
  a worker thread does with each message
- `cache`, `context`, `registry`, `index_handler`, `store`: what an op and an
  index work on
- `membership`, `failure_detector`, `sequencer`, `gossip_state`, `gossip_loop`:
  who is alive, and the order in which everybody learns of it
- `replica_resolver`, `remote_store`, `remote_collection`, `collection_store`,
  `store_server`, `transfer`, `migrate`, `planning`, `migration`, `halt`,
  `heartbeat`: copies on storage nodes, how they are moved, when the cluster stops,
  and how it goes on
- `server`, `client`, `peer_link`, `config`: what is done with a request, a call
  and a configuration
- `bytes`, `frame`, `envelope`, `request`, `response`, `rk`, `lb`, `sk`,
  `store_wire`, `gossip_wire`, `admin_wire`, `list_wire`: the messages as bytes
- `text`, `response_text`, `wire_error`: what is told in words

A function named `law_..` proves something of several functions at once: that
decoding undoes encoding, that an older op never waits for a younger one, that
the nodes which serve a datum have its last write, that a halt stands until every
storage node has shown who it is.

`app/` is a node and the driver of a migration: sockets, threads, files and
configuration around the library. A storage node needs a log of data, which is
handed to it; this program is built without one.

`tests/` runs the library, on its own and in clusters whose messages are
delivered one at a time.
