# proxy_tester

A tester for network proxies. A control node keeps scenarios, networks and results; agents on the
two sides of the proxy play client and server, and report what they measure.

- `src/` is the library, verified with Verus: captures and their replay, HTTP and payload framing,
  network plans and the journal that undoes them, load and worker control, the protocol between
  agents and the control node, and the rules by which the control node answers requests.
- `app/` is the program around it: sockets, TLS, the database, the HTTP and gRPC services and the
  command line.
- `tests/` runs the library on concrete values.

Items marked `external_body` and `assume_specification` are the places where the library relies on
other crates; each says above it what is relied on.
