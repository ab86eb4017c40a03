# anycable

The state and the decisions of an AnyCable websocket server, verified with
Verus.

- `src/streams.rs`: the registry of broadcasting streams (stream name to the
  connections subscribed to it, with the channel they subscribed under).
- `src/connections.rs`: the registry of open connections (peer address to the
  connection's writer queue, identifiers and subscriptions).
- `src/server.rs`: what the server does on each event: an accepted or refused
  connection, a client frame, an answer of the application server, a message
  of the broadcasting channel, a closed connection.
- `src/laws.rs`: properties of the server across operations, such as the
  agreement of the two registries in both directions and that closing a
  connection forgets it.
- `src/json.rs`: the frames the server writes, and the calls into serde_json.
- `src/rpc.rs`, `src/anycable_grpc.rs`: the messages of the AnyCable RPC
  service and the client that decides which call each request becomes.
- `src/transport.rs`: the queue that feeds a websocket's writer, and the
  frames (a queue and a text) that the library hands out for it.
- `app/`: the program: sockets, timers, the redis subscription, the gRPC
  channel, and handing the library's frames to the writer queues.
