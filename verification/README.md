# rm_server_sync

A small text-storage service and its client's text reader, written in Verus.

- `src/` is the verified library:
  - `routes.rs`: the route table (`routes`) and which method and path a request may use (`route_error`);
  - `names.rs`: the rule for user and text names (`valid_name`);
  - `order.rs`, `store.rs`: names in `String` order and a map kept in that order;
  - `crypto.rs`: PBKDF2 password digests, constant-time comparison, random bytes and hex tokens;
  - `message.rs`: request bodies and replies as the service reads and writes them;
  - `service.rs`: the service itself (`Service::new(ttl)`, `Service::handle`) and `handle_spec`,
    its specification; each request carries the time at which it is made, and a token stops
    logging in `ttl` seconds after the login that gave it;
  - `laws.rs`: properties of `handle_spec` over sequences of requests;
  - `client.rs`: the client's multi-line text input (`read_text`);
  - `exchange.rs`: what the client keeps of a reply (`reply_value`: the status, and the body as
    JSON or else as a message) and the address it sends to (`request_url`).
- `app/` is the program around it: an HTTP/1.1 server, JSON conversions and the client's I/O.
- `tests/` holds the tests.
