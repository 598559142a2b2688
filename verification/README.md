# jeed

A market-data feed handler's core, written in Verus. Feeds (KRX UDP multicast,
crypto-exchange WebSocket streams, FIX 4.4 market data) are decoded into a
fixed-layout 640-byte wire record and published to a shared-memory ring that a
separate consumer process reads.

The library states what it does in `requires` / `ensures` contracts and proves
them:

- `src/` is the verified library: the wire record and its header, kinds,
  venues and scales, and the errors that refuse a record (`header`, `kind`,
  `types`, `record`, `payload`, `codec`, `layout`, `error`); the ring
  segment's header and the path a record takes to it (`segment`, `sink`); the
  configuration files and their checks (`toml`, `conf`); CPU masks and SMT
  topology (`cpu`); the feed loop's decisions (`feed`); the FIX snapshot
  adapter (`fix`); the capture replay reader and its report (`pcap`); boot
  identifiers, logging and signal texts (`boot`, `log`, `signal`, `text`).
  Laws that span several functions stand there as public proof functions
  named `law_*`.
- `tests/` runs the library on concrete values.
- `app/` is ordinary Rust around the library: file and socket I/O, OS calls,
  threads and the receive loops of the feed crates, which take the library's
  decisions as values and carry them out.
