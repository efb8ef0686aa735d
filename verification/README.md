# mxr

A terminal multiplexer: a daemon that runs shells, and a client that shows
them. `src/` is a library, verified with Verus, that holds the decisions of
both programs; `app/` is the programs, which perform them and move bytes between
the library and the system.

| module | what it holds |
| --- | --- |
| `bytes`, `text` | integers as bytes and as decimal text |
| `codec` | the values that messages are made of, written and read by `bincode` |
| `protocol`, `wire` | the messages, and their bytes |
| `frame` | messages on a byte stream, each behind its length |
| `outgoing` | bytes that wait for a peer |
| `state` | sessions and panes |
| `replies` | the texts of the daemon's replies |
| `conn` | one client of the daemon: its frames and its requests |
| `daemon` | all clients and panes, and what each event does to them |
| `turn` | one event, from its arrival until the daemon waits again |
| `client` | the requests of the client, and what it makes of the replies |
| `paths` | where the daemon listens, and what it runs |
| `laws` | what holds across several requests and events |

What the library takes on trust is in `codec`: ten calls of `bincode` on
integers, texts and blobs, each with a contract of its own.
