# proxy_connect

Chooses where the outgoing connections of a proxy come from.

A connector may hold a block of addresses (a CIDR) and a fallback address. Connections are bound to
an address of the block: a random one, or, for a session, the one that the session's identifier
determines. If a connection from the block fails, it is tried once more from the fallback address.
The addresses of a domain are tried in order until one of them can be connected to.

* `src/` decides all this and is verified with Verus. It opens no sockets: a decision is a step for
  the caller to take, and the outcome of a step is handed back to get the next one. `laws.rs` states
  what holds of the steps taken together.
* `app/` takes the steps, with tokio.
* `tests/` runs the library.
