# server_core

Verified logic of a family of small network services, written in Verus:

- `clock`: the `HH:MM:SS` clock of day that stamps chat messages (UTC from the
  system clock; the local-time variant is read in `app/` through chrono).
- `http`: reading HTTP/1.1 requests (end of headers, `Content-Length`, request
  line words, two JSON fields of an order) and writing JSON responses.
- `restaurant`: the restaurant order API in its three response styles.
- `leaky_bucket`: a fixed-point leaky-bucket rate limiter (capacity and leak
  rate in billionths of a request, time in nanoseconds since the last check).
- `posts` and `board`: the stores behind the posts API and the message board.
- `chat`: the chat session machine, with rules for each server's behaviour.
- `text`: character-level helpers (digits, whitespace, search, trimming).

`app/` runs the services with tokio and axum; it performs the I/O that the
library's functions decide on. `tests/` exercises the library on concrete
values.
