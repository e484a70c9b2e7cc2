# ipwatch

A tray utility that watches the external IP address, its country and ISP, and
the DNS resolvers in use, so that you can see whether your VPN is actually
working.

- `src/` is the library: what counts as a change and what is recorded of it,
  provider failover, the DNS leak verdict, tray icon, tooltip and toasts,
  settings, map tile requests and cache pruning. Each function states its
  behaviour in a contract; laws that span functions stand beside them as proof
  functions. Verus proves all of them but for what is believed of other
  people's code: four wrappers (the standard phrase of an HTTP status, a random
  UUID, the top-level shape of a JSON text, the `Debug` form of a string) and
  the contract of `String::push`. Each of these says in its doc comment what it
  claims.
- `app/` is the program around it: HTTP, SQLite, files, local network facts and
  the Tauri desktop shell.
- `tests/` runs the library on concrete values.
