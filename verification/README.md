# sstp

Steve's Super Transfer Program: send a file from one computer to another
through a relay server, under a short room code made of three words.

- `src/` is the verified library (Verus): the protocol messages
  (`messages`), chunking, room keys, address and path handling and the texts
  shown to users (`utils`), the relay's room registry and per-connection state
  machine (`relay`), the sending and receiving clients' decisions and the
  download (`client`), and the end-to-end delivery law (`transfer`).
- `app/` is the `sstp` program around it: the command line, WebSocket
  connections, JSON encoding of the messages, terminal prompts and progress
  bars, and the relay's server loop.
- `tests/` runs the library on concrete values.
