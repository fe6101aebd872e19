# mc_rust_server

The protocol core of a small Minecraft server, verified with Verus.

- `src/varnum.rs` — the variable-length number format: its specification
  (`spec_decode`, `spec_encode`), a byte-by-byte reader, a slice decoder, the
  encoder, and the round-trip and canonical-encoding lemmas.
- `src/utils.rs` — `RWStreamWithLimit`, the stream of one packet: reads stop at
  the packet's limit, writes end reading.
- `src/types/` — VarInt, VarLong, Long, McString, and packets: which packet an
  id names in each connection state, how a packet is read and answered, and how
  an answer is framed.
- `src/protocols/` — handshake, status, ping, custom report details.
- `src/connection.rs` — connection states and the decisions taken between
  packets.
- `app/main.rs` — the network server: it accepts connections, reads frames
  with tokio, hands their bytes to the library and sends back what it wrote.
