# ws_server

A minimal WebSocket relay for end-to-end encrypted traffic between paired
clients. The server holds no accounts and no database: it routes opaque frames
from one socket to another, and tells clients who of those they watch is online.

Everything that the relay decides is in the library under `src/`, written in
Verus and proved. The sockets, the tasks, the monotonic clock and the log are in
`app/`.

## The library

| module        | what it holds                                                        |
|---------------|----------------------------------------------------------------------|
| `primitives`  | the outside primitives, one small function each, taken on trust      |
| `clock`       | points in time as numbers                                            |
| `keys`        | Ed25519 keys                                                         |
| `crypto25519` | packets (encrypted, then signed), session keys, routing headers      |
| `frames`      | identifiers, inner messages, lists of peers, frames of the server's  |
| `index`       | identifiers and public points as keys of the registry's collections  |
| `hub`         | the registry: sessions, who is online, who watches whom              |
| `handshake`   | the first frame of a connection                                      |
| `routing`     | frames of an established session, and commands to the server         |
| `presence`    | telling watchers who comes and goes                                  |
| `connection`  | the life of a connection, message by message                         |
| `heartbeat`   | dropping clients that have fallen silent                             |
| `coherence`   | what is true of the registry at all times                            |
| `laws`        | what the relay promises its clients                                  |

The registry is modelled by `HubView`: a map of sessions, a set of public points
that are online, and a relation of who watches whom. What a frame leads to is
modelled by `Plan`, with the server's messages as they are before they are
sealed; `carries_out` ties the bytes that go out to the plan. Nonces are random,
so a sealed frame is described by `is_server_frame`: it has the right bytes for
the nonce that it holds, its header names the server, and its recipient opens it
to the message.

## Wire format

* `client_id`: the first eight bytes of the client's X25519 public point.
* First frame: `[x_pub:32][nonce:24][ciphertext][signature:64]`, around
  `[message_id:u16 LE][0x01][ed_pub:32][version]`.
* Routing frame: `[header:8][nonce:24][ciphertext][signature:64]`. The header is
  the recipient's identifier, combined with a ChaCha20 keystream under a key
  that the client and the server share; zero stands for the server. The server
  puts the sender's identifier in its place, under the recipient's key, and
  passes the rest on untouched.
* A message of the server's has a zero header, and is encrypted and signed by
  the server around `[message_id:u16 LE][cmd][body]`.
* Errors have `cmd` 0xFF: 1 the identifier is in use, 2 another version is
  spoken, 3 the recipient is offline.

## Running

`ws_server` listens on `0.0.0.0:8080` unless `WS_BIND` says otherwise, with the
WebSocket on `/ws` and a report on `/status`. `RUST_LOG` sets how much it logs.
