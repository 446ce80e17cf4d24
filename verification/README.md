# ya-relay-client

Client side of a relay network. Nodes talk to each other directly where they can, ask the other
side to connect where only they have public ports, and go over a relay server where nothing else
works. Reliable channels run over an embedded tcp stack.

`src/` holds the logic, proved with Verus: encryption, the view of the network and its permits,
session states, handshakes, the session layer, the search for ways to nodes, expiration, virtual
tcp, forwarding, neighbours and broadcasts. Code that waits for something outside is written as
steps from an event to the next action, and the contract of a step says exactly which action
follows.

Sessions are kept by `SessionLayer`. `SessionManager` is a simpler keeper for programs that need only
one relay server and no encryption.

`app/` runs the steps of the session layer on sockets and timers with tokio. The wire format,
cryptography and the tcp stack come from the embedding program, by way of the `Platform` trait.

`tests/` runs the library.
