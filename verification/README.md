# Vyse

A tunnel from a public edge to services on a developer's machine: the CLI holds
one QUIC connection to the edge, the edge publishes it under a subdomain and
sends every public HTTP request for that name over a stream of it.

`src/` is the library: protocol, routing, HTTP/1.1 reading, HTTP/3 and MASQUE
decisions, subdomain claims, registration, the webhook log. It is verified with
Verus; each function's contract says what it returns, and functions named
`law_…` state what holds across functions.

| Modules | What they hold |
| --- | --- |
| `octets`, `varint`, `search`, `text`, `encoding`, `number`, `render` | bytes, numbers and texts |
| `protocol`, `routes`, `frame`, `stream`, `udp` | what travels between CLI and edge |
| `lines`, `http`, `reader`, `framing` | HTTP/1.1 heads, and messages that arrive in pieces |
| `claims`, `registry`, `session`, `edge`, `gateway`, `h3` | the edge |
| `tunnel`, `forwarding`, `store`, `replay`, `config`, `identity`, `update` | the CLI |

`app/` is the program around it: sockets, QUIC, files, the terminal. Called as
`vyse-edge` it is the edge, else the CLI.
