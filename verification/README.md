# expressgateway

A load-balancing gateway for connections and HTTP requests, written in Rust and
verified with Verus, together with the harness that soaks and benchmarks it.

## The library (`src/`)

Every function states in its contract what it returns or changes, and Verus
proves that it does.

- `l4`, `l7`: the balancers. Round robin, random, weighted round robin, least
  connection, least load, consistent hash and least response time, over the
  nodes of `node`.
- `ring`, `rotation`, `chance`: what several balancers share.
- `sticky`, `session`: which node a returning client goes back to, by cookie,
  by address and by connection. `store` holds the session tables and the
  eviction pass.
- `gateway`: what a configuration makes of each listener, and the decisions of
  the accept loop, the certificate and configuration reloads, the boot and the
  drain.
- `xdp`: when the kernel data plane may be attached.
- `soak`: load shapes, origin behaviour, wire frames, scenarios, the sampling
  of a process and its metrics, and the verdicts on what was measured.
- `text`, `headers`, `net`, `sample`: text, headers, addresses and metric
  samples as plain values.

Properties that span several functions are proof functions whose names start
with `law_`.

Doubles appear as their bit patterns, times as numbers of milliseconds or
microseconds handed in by the caller, and resolved addresses as text.

What is taken on trust stands in functions marked `external_body` and in names
without a body. Each has a comment that says which outside function it speaks
of and what it claims.

## The programs (`app/`)

`app/` performs what the library decides: sockets, TLS, QUIC, signals, child
processes, clocks and files. Without an argument, or with the path of a
configuration file, it runs the gateway; `soak` and `bench` run the harness.
Floating-point arithmetic, the trend analysis above all, is done here.

## Tests (`tests/`)

The tests run the library with the real outside crates.
