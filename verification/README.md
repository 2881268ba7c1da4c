# openrdc_host

A local remote-desktop-control host for X11: a loopback HTTP service that
captures the screen and injects mouse and keyboard input on behalf of a
client holding a bearer token, under exact-match capabilities, rate limits
and a hash-chained audit log.

- `src/` is the library, verified with Verus: request validation and
  decisions (`server`), the rate limiter (`ratelimit`), capabilities, the
  frame registry and coordinate transform (`backends`), the audit chain
  (`audit`), token rules (`token`), X11 decisions (`backends/x11`), command
  line options (`cli`), and contracts for the outside calls it makes
  (`json`, `imaging`).
- `app/` is the program around it: files, environment, the X server, input
  injection and the axum server.
- `tests/` exercises the library on concrete values.
