# dsh_gate

The verified core of an authentication gateway placed in front of a
host-resident `dsh web`: Argon2 username/password login, session cookies
(12 h, `HttpOnly`, `SameSite=Strict`), one-time CSRF tokens (10 min), per-IP
lockout after 5 failures for 5 minutes, and a reverse proxy that rewrites
`Host`/`Origin` to the loopback form.

Layout:

- `src/table.rs` — string-keyed table with distinct keys, viewed as a map
- `src/clock.rs` — wall clock in epoch seconds, saturating expiry times
- `src/token.rs` — hexadecimal tokens from random bytes
- `src/text.rs` — splitting, trimming, cookie values, ASCII case folding
- `src/state.rs` — session, CSRF and rate-limit stores
- `src/password.rs` — Argon2 hashing and verification
- `src/auth.rs` — login page, login flow, logout, session guard
- `src/proxy.rs` — upstream request planning and the WebSocket relay rule
- `src/laws.rs` — properties of the library as a whole
- `app/main.rs` — the axum program: configuration, routing, forwarding

Every operation that reads the clock has a twin ending in `_at` that takes
the time as an argument.
