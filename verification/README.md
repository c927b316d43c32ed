# PG-Prism

A sidecar proxy between HAProxy and PostgreSQL. It reads the client's address out
of the PROXY v1 header that HAProxy sends, appends it to the `application_name` of
the startup message, and applies an optional ruleset (Guardian) to connections and
statements.

`src/` is the library: everything that the proxy decides, written in Verus and
proved against its contracts.

| module     | what it decides                                                          |
|------------|--------------------------------------------------------------------------|
| `session`  | the course of one connection, as a state machine of events and steps     |
| `proxy`    | the PROXY header and the bounds on startup packets                       |
| `protocol` | startup parameters, application names, error responses                   |
| `guardian` | which rule applies to a connection, and which statements it may send     |
| `search`   | whole words in the bytes of a statement                                  |
| `trust`    | which peers may send a PROXY header, and how often a refusal is logged   |
| `net`      | addresses and CIDR blocks                                                |
| `relay`    | how an established connection ends                                       |
| `limits`   | bounds and deadlines                                                     |
| `settings` | what the environment says of a setting                                   |
| `server`   | where to listen and forward, and how long to pause after a failed accept |
| `tls`      | whether to terminate TLS, and how the certificate is made                |
| `clock`    | spans, times of day, and the clocks that give them                       |
| `text`     | characters, strings and bytes                                            |

`app/` is the program around it: it owns the sockets, reads the environment and
`guardian.yaml`, and carries out the steps that a session asks for.

A session is driven like this: whoever owns the sockets reports an `Event` and
carries out the `Step` that comes back. A peer outside `TRUSTED_PROXIES` is turned
away before a byte is read, a connection that Guardian denies never reaches
PostgreSQL, and a statement is forwarded byte for byte or blocked. These and the
other promises are stated as proof functions beside the code that they speak of.

Guardian looks for its blocked words in Query and Parse messages below one
kilobyte. A word counts in any letter case, wherever it stands, unless it begins or
ends inside a longer identifier. An identifier begins with a letter, `_` or a byte
outside ASCII; digits in front of a word, `$$` and `$tag$` hide nothing.
