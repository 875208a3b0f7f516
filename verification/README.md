# p2p_relay

A peer-to-peer UDP toolkit whose decision-making core is verified with Verus.

`src/` is the verified library:

- `wire` — the datagram format of the reliable layer (two big-endian header
  words and a payload) and the proofs that reading and writing are inverse.
- `reliable` — the receiving and sending sides of the reliable layer as state
  machines: in-order hand-off through a reorder buffer, acknowledgements, and
  retransmission after a timeout.
- `relay` — the rendezvous relay's request parsing and lobby manager.
- `sharecode` — lobby codes as sixteen big-endian bytes.
- `peer` — what a peer decides while meeting its partner and chatting.
- `turn` — the forwarding core of the sharded relay: session tables, shards,
  the shard router, the buffer pool and the completion tokens of the ring.
- `endpoint` — socket addresses as plain values.
- `trusted` — the contracts taken on trust from `dashmap`, `heapless`,
  `ahash`, `io-uring` and the standard library's UTF-8 decoding and trimming.

`app/` holds the programs around it (sockets, async tasks, io_uring, libc and
logging): `relay`, `peer`, `turn` and `test-client` subcommands of one binary.
