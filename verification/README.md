# chat_bridge

Lets a client of the Responses API talk to a server that speaks the Chat
Completions API. Requests are rewritten in one direction, streamed replies in
the other. The rewriting is executable Rust whose contracts are proved with
Verus.

- `src/protocol.rs`, `src/error.rs`: the Responses side, as data.
- `src/request.rs`, `src/chunk.rs`: the Chat side, as data.
- `src/convert.rs`: a request, rewritten.
- `src/converter.rs`: the chunks of a streamed reply, turned into events.
- `src/session.rs`: one streamed turn, poll by poll, to its end.
- `src/call.rs`, `src/headers.rs`: the HTTP call and its headers.
- `src/json.rs`: JSON values, as `serde_json` holds them.
- `src/text.rs`: strings.
- `src/laws/`: what holds across functions, as proved statements.
- `app/`: the client and the event loop around the library, in ordinary Rust.
- `tests/`: the library at work on given values.
