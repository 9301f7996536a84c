# fectp

The decisions of a fast encrypted datagram transport, verified with Verus.

`src/` is the library. It holds no socket, no clock and no cipher: it says
whether coding a payload pays, how a message is cut and put back together, what
is sent again and what is given up on, whose frame a datagram is, whom to answer,
whom to follow to another address and whom to let go. Every function carries a
contract, and the properties that span functions are stated as proof functions
beside them.

| Modules | What they hold |
| --- | --- |
| `fragment`, `reassembly`, `arrival` | cutting messages, joining them, and why order and duplication do not matter |
| `codec`, `compress`, `coding` | shapes of payloads, Zstandard, and when coding pays |
| `link`, `peer`, `feed`, `ingest` | one peer: room in a frame, the queue and what leaves it, retransmission, inbound frames |
| `table`, `ticket`, `budget`, `schedule` | sessions on file, resumption tickets, rate limits, handshake retries |
| `endpoint`, `dispatch`, `drive`, `poll` | many peers on one socket |
| `connection`, `duplex` | one peer on a socket of its own, and on a thread of its own |
| `udp`, `abi`, `footprint`, `identity`, `random`, `error`, `clock`, `buffer`, `keys` | the smaller parts |

`tests/` runs the library on concrete values. `app/` is the ordinary Rust around
it: sockets, threads, the C interface, and the session layer's ciphers.
