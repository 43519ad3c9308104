# RustBond

MetalBond distributes virtual network routes across hypervisors over TCP/IPv6. This crate holds
what its clients and servers decide and compute, with contracts that Verus proves:

- `src/` is the library. `wire` and `stream` are the message format and messages in a stream of
  bytes; `proto` and `pb` are the Protobuf payloads; `types`, `ip` and `route` are VNIs,
  destinations, next hops and route tables; `peer` and `handshake` are a client's connection to one
  server; `client`, `multi` and `origins` are a client with one or more servers; `server` and
  `session` are a server's routing state and its side of a connection; `netlink` decides which
  routes go into the kernel.
- `app/` is what talks to the network and to the kernel: asynchronous clients and servers around the
  library.
- `tests/` runs the library.

## Features

- Automatic reconnection, after which subscriptions and announced routes are sent again
- VNI-based subscriptions
- Multi-server high availability with ECMP support
- Standard, NAT, and load balancer route types

## What is proved

- Encoding a message and decoding it gives the message back, whatever bytes follow, and it makes no
  difference in which pieces the bytes of a stream arrive.
- A server tells every subscriber of a VNI, and no one else, about each route that another client
  announces or withdraws. A subscriber that listens, and counts in what it announces itself, knows
  exactly the routes of the VNI. When a client goes, so do its routes.
- A client tells its user about a route when the first server announces it and again when the last
  one withdraws it, and never twice.
