# tonia-sdk

Client for tonia Pass, written in Verus. The library under `src/` holds everything the
client decides, each function with a contract that Verus proves:

- `escape` — the path rules of the escape hatch (normal form of a path, supported prefixes);
- `transport` — request headers, URLs, path segments, audio file checks;
- `routes` — the route, authentication and timeout class of each named helper;
- `errors` — the typed errors that responses and stream headers raise;
- `limits` — soft-limit headers;
- `stream` — server-sent event framing;
- `client` — what a request sends and what a response gives back;
- `realtime` — realtime URLs, connection parameters, handshake and turn handling;
- `json`, `text` — JSON values and text helpers shared by the others.

Laws stated and proved in the library include: the normal form of a path is a slash and plain
segments; normalizing is idempotent on paths whose normal form does not end in whitespace (in
particular on paths without whitespace); a path that passes the path check passes it again
unchanged; every named helper's path passes the check unchanged; stream frames and their blank
lines rebuild the text, and feeding a stream in chunks gives what feeding it at once gives;
header building fails exactly when a needed key is missing and sends given headers as given;
errors raised from a response keep its status, headers and retry hints.

`app/` is the asynchronous transport around the library (HTTP with `reqwest`, WebSocket with
`tokio-tungstenite`); `tests/` exercises the library on concrete values.
