# xiaozhi-server

A server for voice devices, verified with Verus.

- `GET /health` reports the number of sessions.
- `POST /api/v1/device/register` registers a device and starts a session.
- `POST /api/ota/` and `POST /xiaozhi/ota/` tell a device of its activation, its connections and
  its firmware.
- `GET /ws/:session_id` and `GET /xiaozhi/v1/` open a WebSocket connection. Text messages are
  answered by their kind (hello, listen, abort, mcp, ping) and acknowledged where they are of no
  known kind, binary frames go back as they came, pings get pongs, and a session ends with its
  connection.

The server listens on `0.0.0.0:8080`; the environment variable `RUST_XIAOZHI_BIND` names another
address.

## Layout

- `src/` is the library. It decides what is answered: it takes in lines, requests, frames and
  events, and gives back responses and bytes to write. Every function has a contract, and
  `src/laws.rs` states what holds from one request, message or connection to the next.
- `app/` is the program around it: sockets, threads and the lock on the sessions.
- `tests/` runs the library on concrete values.

## What is taken on trust

- `String::push` appends a character.
- `String::from_utf8_lossy` depends on nothing but the bytes, and decodes valid UTF-8 unchanged.
- A reading of the clock has less than a second's worth of nanoseconds beside the whole seconds.
