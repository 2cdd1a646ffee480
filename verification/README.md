# doh-proxy

A DNS-over-HTTPS proxy. It takes DNS queries over HTTP/2 and HTTP/3 (as wire messages, in a query
string, as JSON, or as Oblivious DoH) and asks upstream servers over UDP, TCP, TLS or HTTPS.

## Layout

- `src/` is the library, verified with Verus. It holds the logic and does no input or output.
  - `upstream/`: DNS messages (`msg`, `answers`, `rewrite`, `round_trip`, `dns_packet`) and the
    ways to ask several servers (`parallel`, `load_balance`, `fastest_addr`, with `attempts`,
    `stats` and `exchange`).
  - Requests and responses: `request`, `response`, `content_type`, `query_string`, `json_query`,
    `headers`.
  - Talking to servers: `dns_client`, `doh_upstream`, `h2_client`, `h3_client`, `h3_pools`,
    `retry`, `bootstrap`, `resolve`, `fast_ip_cache`.
  - Serving: `globals`, `http3_server`, `tls`.
  - Settings: `config`, `stamps`, `utils`, `limits`.
  - Shared: `errors`, `net`, `text`, `time`, `wire`.
- `tests/` runs the library on concrete values.
- `app/` is ordinary Rust around the library: sockets, TLS, HTTP, timers and the command line.

## Reading the contracts

A step that waits for something outside is split: one function says what to do next, and another
takes what came of it. Their contracts are exact for every outcome.

Statements about several functions are public proof functions whose names start with `law_`.

What is believed and not proved is marked `#[verifier::external_body]` or `assume_specification`.
The comment above each such item says what is believed of which outside function.
