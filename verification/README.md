# flx

A proxy scraper whose rules are verified with Verus.

- `src/` is the library: parsers for proxy lists, the provider registry, the
  rules of a gathering run, the row cache, deduplication, filters and orders,
  handshakes with HTTP, SOCKS4 and SOCKS5 proxies, the rotating endpoint, the
  geolocation databases, public address discovery, the configuration wizard and
  the state of the terminal interface. It is verified, down to the wrappers
  around outside calls, whose contracts are trusted.
- `app/` is the program around it: sockets, files, TLS, JSON, the terminal and
  the command line.
- `tests/` run the library with the real outside crates.

Whatever waits, sends or draws is decided in the library: a function takes the
state and what happened, and returns the next state and what to do. The program
performs it and reports back.

Calls into outside crates stand behind small wrappers whose doc comments say
what is taken for granted of them. Where a result takes pages to state it has a
name, and the logic behind the call is a public function of its own that takes
the result as an argument.

Durations are milliseconds where they bound a wait, nanoseconds where they are
shown, and response times are microseconds. Coordinates are millionths of a
degree.
