# utp

A uTP (micro transport protocol) endpoint, verified with Verus.

`src/` holds everything but the I/O, with contracts that Verus proves:

- `packet`, `wire`: packets and their wire format;
- `selective_ack`: selective acknowledgements, written and read;
- `state`, `reaction`: what is kept about a peer, and how it changes when a packet arrives;
- `peers`, `socket`: the peers of a socket, sending and receiving;
- `stream`, `utp_stream`: the buffering of reads;
- `laws`: what holds of a connection over several packets.

The crates `dashmap` and `bytes` are called behind small functions in `peers` and `utp_stream`
whose contracts are taken on trust.

`app/` puts the library on UDP sockets with `tokio`, and adds the clock and randomness.
`tests/` runs the library on concrete values.
