# trade_server

A trade server that clients find on the local network, reach over TLS websockets, and use
after registering or logging in. The library in `src/` holds the logic, verified with Verus:

- `authentication`: accounts and the table of live session tokens; registration (password and
  e-mail rules, duplicate addresses), login, logout, expiry of sessions, and the laws that
  relate them.
- `checks`: the password rule and the e-mail rule.
- `token`, `user`: session tokens with random identifiers, and accounts.
- `clock`: instants in UTC as plain integers.
- `protocol`: what the server answers on a connection before and after authentication.
- `watchlistmap`: the cache of ticker data.
- `dominator`: which address the server announces and the announcement texts.
- `text`: character-level string helpers.

`app/` is the program around it: sockets, TLS, websockets, JSON, mail transport, timers and
the Yahoo Finance client.
