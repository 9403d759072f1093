# matrix_channel

A chat channel over the Matrix Client-Server API, in two parts.

`src/` is the library, verified with Verus. It decides what to ask the
homeserver and what its answers mean: which requests are made and with which
bodies, how a message is cut, sent and edited, what a room event says, how the
sync loop goes on after success and failure, and how a reply is shown while it
is still being written.

- `text`, `html`, `escape_laws`: characters, HTML to plain text and back
- `json`, `requests`, `media`, `message`: what goes over the wire
- `adapter`: the account, its rooms and its requests
- `outgoing`: sending and editing
- `incoming`, `sync`: room events and the sync loop
- `tools`, `streaming`: tool calls and replies in progress
- `outside`: what is taken from other crates, and what is assumed of it

`app/` is ordinary Rust around it: HTTP, timers, channels and logging. The
program that uses it provides, as `Host`, how texts are split and formatted.

The laws of the library are the public proof functions named `law_...`.
