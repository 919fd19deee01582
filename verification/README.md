# chat_core

The engine of a peer-to-peer group-chat client: rooms that are found by a code
alone, joiners that the host approves one by one, direct encrypted links between
every pair of peers, and file transfer over the same links. No server stores or
relays anything.

Everything that decides something is in `src/`, written in Verus and proved
against the contracts that stand there. `app/` is the front end around it:
sockets, threads, files, JSON and a terminal.

## Layout

| | |
|---|---|
| `src/transport/` | the `Stream`/`Listener` abstraction; LAN and Bluetooth addresses |
| `src/codec.rs` | length-prefixed frames on a stream |
| `src/watched.rs` | a stream that is used against the clock |
| `src/crypto.rs` | Noise handshakes, sessions and encrypted links |
| `src/hashing.rs` | SHA-256 |
| `src/roomcode.rs` | room codes in Crockford base32 |
| `src/protocol.rs` | messages, frames, ids and time stamps |
| `src/mesh.rs` | the node: hosting, joining, approval, the mesh, chat |
| `src/files.rs` | file transfers |
| `src/sending.rs` | the course of an outgoing transfer |
| `src/history.rs` | the transcript |
| `src/ratelimit.rs` | join-attempt throttling |
| `src/screen.rs` | what the window shows |
| `src/laws.rs` | what a room promises as a whole |
| `src/events.rs` | events, and the actions that a node asks for |
| `src/names.rs`, `src/text.rs`, `src/digits.rs`, `src/table.rs`, `src/views.rs`, `src/clock.rs`, `src/error.rs` | what the rest is built from |
| `tests/` | whole rooms in memory, encrypted links, and every module by itself |
| `app/` | the terminal front end |

## How the pieces meet

A `Node` never touches a socket. The front end reports what happened - a
connection, a message, a lost link, an answer of the user - and the node returns
what is to be done: events to show, messages to send, links to close, peers to
dial, files to close. A front end does these in order.

What was not proved is marked where it stands: calls into `snow`, `sha2`,
`rand`, `chrono` and the clock carry contracts that are believed, each with a
comment that says what it claims.

## Front end

`host lan NAME` opens a room and prints its code; `join lan CODE NAME` asks to be
let in; `accept N` and `decline N` answer a request. Any other line is sent to
everyone. `help` lists the rest. Bluetooth needs Windows, and the two devices
paired once.
