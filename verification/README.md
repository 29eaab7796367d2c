# webpg

A small web playground — a counter, a server-rendered todo list, and a chat
over WebTransport — whose logic is a library verified with Verus.

- `src/` — the verified library:
  - `counter.rs`: the counter and its stepping laws;
  - `text.rs`: Unicode white space, trimming, decimal `i64` parsing and
    printing, lowercase hex, HTML escaping;
  - `json.rs`: JSON string literals as `serde_json` writes them;
  - `chat.rs`: chat messages, the wire format, the chat hub's session registry
    and what a broadcast hands to each session, the decisions of a
    WebTransport session, reassembling a stream's text, reading a broadcast
    back in the browser, and the chat page's list entries;
  - `todo.rs`: which titles are stored, which ids a request names, and the
    list entry shown for an item;
  - `error.rs`: request errors and the status each is answered with;
  - `cert.rs`: the TLS certificate material, what a new certificate states
    (DNS and IP names, common name, validity dates, the key it carries and is
    signed with), calendar arithmetic for its expiry, and its SHA-256
    fingerprint.
- `app/` — the server around it: HTTP routes, SQLite, file I/O, the
  WebTransport loop and the pages.
- `tests/` — tests of the library on concrete values.
