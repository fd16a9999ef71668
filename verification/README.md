# sockrocket-core

The core of a proxy client: the protocols, the routing rules and the decisions
behind its servers, its tunnel and its health checks, verified with Verus.

`src/` is the library. Every function in it has a contract over mathematical
models (`Seq`, `Map`, views of the data types), and the properties that span
functions are public proof functions whose names begin with `law_`.

- `router` — routing rules, their cache, and countries by address ranges
- `proxy` — the protocols (VMess, VLESS, Trojan, Shadowsocks, ShadowTLS,
  Hysteria2, WebSocket), the local SOCKS5 and HTTP servers, connection pools,
  races, health checks, speed tests, statistics, and the tunnel (`proxy::tun`)
- `share_server`, `system_proxy`, `qr` — sharing of nodes and the desktop
- `config` — nodes and their transports
- `crypto`, `net`, `text`, `bytes`, `table`, `platform` — what the rest is
  built on

Ciphers, digests, identifiers, URLs, QR codes and the cache come from other
crates. Each call stands behind one small function whose contract is believed;
its documentation says what is claimed of the crate.

`app/` holds what touches the outside: sockets, tasks, timers, files, commands
of the system. It carries out what the library decides.

`tests/` runs the library with the real crates.
