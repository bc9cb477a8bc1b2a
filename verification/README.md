# znet

A small peer-to-peer messaging layer on top of zenoh, with its routing logic verified in Verus.

- `src/` is the verified library: messages, topic keys, the table of live peers (kept in an
  `indexmap::IndexSet`), and the round-robin choice of the peer a message goes to.
- `app/` runs a node: the zenoh session, liveliness tokens, and the put and get workers,
  which ask the library where each message goes.
- `tests/` exercises the library on concrete values.
