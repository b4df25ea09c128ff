# concord

A small chat system, verified with Verus.

- `src/protocol.rs`: the messages and their framing (a four-byte big-endian
  length, then the payload), with the encode/decode round trip proved.
- `src/server/clients.rs`: the registry of logged-in clients (ids, lookup by
  public key, removal) and its laws.
- `src/server/mod.rs`: who is connected, and who receives what when a client
  logs in, talks or leaves.
- `src/client/client_lib.rs`: the commands a client sends.
- `app/`: the TCP and async plumbing, JSON encoding, and the binary
  (`concord server` / `concord client`).
