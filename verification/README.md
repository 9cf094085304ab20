# nfs-rs

The core of an NFSv4 client, written and verified in Verus.

The library computes on plain values: it builds COMPOUND requests, reads replies, answers
callbacks, and decides what a mount does with its leases, open files, locks, delegations and
layouts. Sockets, tasks and clocks stand in `app/`.

- `src/xdr.rs`, `src/rpc.rs`, `src/buffer.rs`, `src/channel.rs`, `src/random.rs`: the wire, and
  the calls into `bytes`, `tokio` and `rand`.
- `src/error.rs`, `src/text.rs`, `src/time.rs`, `src/path.rs`, `src/net.rs`, `src/sort.rs`,
  `src/table.rs`, `src/ordered.rs`: errors, texts, addresses and collections.
- `src/nfs4/`: what both minor versions share.
- `src/nfs40/`: NFSv4.0 (RFC 7530): requests and replies, callbacks, leases, open files and
  locks, directories, metadata, recovery.
- `src/nfs41/`: NFSv4.1 (RFC 5661): requests and replies, callbacks, leases, delegations,
  parallel layouts.
- `tests/`: the library at work on scripted messages.
- `app/`: connections, listeners and background tasks around the library.

Contracts speak of views: a buffer is the bytes that it still holds, a request its operations
in order, a reply what can be read from it, a mount its open files, locks and lease. Public
proof functions whose names begin with `law_` state what holds across several calls.

Points in time are milliseconds on a clock of the caller's.
