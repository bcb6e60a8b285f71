# auto-server

A proxy that tells SOCKS4, SOCKS5 and HTTP CONNECT apart on one TCP port, and
serves MASQUE tunnels over HTTP/3 beside it: UDP (CONNECT-UDP), IP (CONNECT-IP),
WebSocket and plain TCP.

The library in `src/` makes the decisions: it parses what comes in, validates
requests, hands out addresses, frames capsules, plans commands and steers each
session as a state machine from events to actions. Its contracts are proved with
Verus. The program in `app/` owns the sockets, files, devices and clocks; it
performs the actions and reports the events.

| module | what it decides |
| --- | --- |
| `config`, `lib` | what is started for a configuration |
| `server` | hosts, special-purpose addresses, protocol detection, authorities, SOCKS5 addresses |
| `socks4`, `socks5`, `http_connect` | the three handshakes |
| `connect` | from a destination to an open TCP connection |
| `udp_relay` | SOCKS5 UDP ASSOCIATE |
| `auth`, `ext`, `masque` | HTTP/3 requests: authorization, protocol tokens, validation, dispatch |
| `routes`, `tunnel`, `ip_tunnel` | the tunnels of an HTTP/3 connection |
| `capsule`, `wire`, `be` | varints, capsules, addresses and routes on the wire |
| `tun` | address pool, forwarding flag, set-up and tear-down of a tunnel device |
| `pem` | certificates and keys |
| `upgrade` | intervals, versions, releases, archives, restart |
| `service` | unit file, init script and the steps of the service commands |
| `addr`, `text`, `time` | addresses, text and lengths of time |

What rests on other crates without proof stands in small wrappers: `bytes`
buffers (`wire`), base64 (`auth`), percent-decoding (`masque`), CIDR notation
(`tun`), PEM (`pem`), and gzip and tar (`upgrade`).
